//! Rows by their keys, and how single changes of a table show in them.
use super::tables;
use super::tables::AttemptRow;
use super::tables::CredentialRow;
use super::tables::GenerationRow;
use super::tables::LogRow;
use super::tables::MirrorRow;
use super::tables::NodeRow;
use super::tables::RunRow;
use super::tables::ScheduleRow;
use super::wellformed;
use vstd::prelude::*;

verus! {

/// The mirror of a name.
pub open spec fn mirror_row(rows: Seq<MirrorRow>, name: Seq<char>) -> Option<MirrorRow> {
    match tables::mirror_index(rows, name) {
        Some(i) => Some(rows[i]),
        None => None,
    }
}

/// The generation of a mirror.
pub open spec fn generation_row(rows: Seq<GenerationRow>, name: Seq<char>, generation: u64) -> Option<GenerationRow> {
    match tables::generation_index(rows, name, generation) {
        Some(i) => Some(rows[i]),
        None => None,
    }
}

/// The schedule of a mirror.
pub open spec fn schedule_row(rows: Seq<ScheduleRow>, name: Seq<char>) -> Option<ScheduleRow> {
    match tables::schedule_index(rows, name) {
        Some(i) => Some(rows[i]),
        None => None,
    }
}

/// A mirror changed in place is found changed; every other mirror is found as it was.
pub proof fn lemma_mirror_changed(rows: Seq<MirrorRow>, i: int, row: MirrorRow)
    requires
        wellformed::mirrors_unique(rows),
        0 <= i < rows.len(),
        row.name@ == rows[i].name@,
    ensures
        wellformed::mirrors_unique(rows.update(i, row)),
        forall|name: Seq<char>|
            #[trigger] mirror_row(rows.update(i, row), name) == (if name == row.name@ {
                Some(row)
            } else {
                mirror_row(rows, name)
            }),
{
    let after = rows.update(i, row);
    assert forall|name: Seq<char>| #[trigger] mirror_row(after, name) == (if name == row.name@ {
        Some(row)
    } else {
        mirror_row(rows, name)
    }) by {
        tables::lemma_mirror_index(rows, name);
        tables::lemma_mirror_index(after, name);
        if name == row.name@ {
            assert(after[i].name@ == name);
        } else {
            match tables::mirror_index(rows, name) {
                Some(k) => {
                    assert(after[k].name@ == name);
                },
                None => {
                    if let Some(k) = tables::mirror_index(after, name) {
                        assert(rows[k].name@ == name);
                    }
                },
            }
        }
    }
}

/// A new mirror is found; every other mirror is found as it was.
pub proof fn lemma_mirror_pushed(rows: Seq<MirrorRow>, row: MirrorRow)
    requires
        wellformed::mirrors_unique(rows),
        !wellformed::has_mirror(rows, row.name@),
    ensures
        wellformed::mirrors_unique(rows.push(row)),
        forall|name: Seq<char>|
            #[trigger] mirror_row(rows.push(row), name) == (if name == row.name@ {
                Some(row)
            } else {
                mirror_row(rows, name)
            }),
{
    assert forall|name: Seq<char>| #[trigger] mirror_row(rows.push(row), name) == (if name == row.name@ {
        Some(row)
    } else {
        mirror_row(rows, name)
    }) by {
        assert(rows.push(row).drop_last() == rows);
        tables::lemma_mirror_index(rows, name);
    }
}

/// A new generation is found; every other generation is found as it was.
pub proof fn lemma_generation_pushed(rows: Seq<GenerationRow>, row: GenerationRow)
    requires
        wellformed::generations_unique(rows),
        !wellformed::has_generation(rows, row.mirror_name@, row.generation),
    ensures
        wellformed::generations_unique(rows.push(row)),
        forall|name: Seq<char>, generation: u64|
            #[trigger] generation_row(rows.push(row), name, generation) == (if name == row.mirror_name@ && generation
                == row.generation {
                Some(row)
            } else {
                generation_row(rows, name, generation)
            }),
{
    assert forall|name: Seq<char>, generation: u64|
        #[trigger] generation_row(rows.push(row), name, generation) == (if name == row.mirror_name@ && generation
            == row.generation {
            Some(row)
        } else {
            generation_row(rows, name, generation)
        }) by {
        assert(rows.push(row).drop_last() == rows);
        tables::lemma_generation_index(rows, name, generation);
    }
}

/// A schedule changed in place is found changed; every other schedule is found as it was.
pub proof fn lemma_schedule_changed(rows: Seq<ScheduleRow>, i: int, row: ScheduleRow)
    requires
        wellformed::schedules_unique(rows),
        0 <= i < rows.len(),
        row.mirror_name@ == rows[i].mirror_name@,
    ensures
        wellformed::schedules_unique(rows.update(i, row)),
        forall|name: Seq<char>|
            #[trigger] schedule_row(rows.update(i, row), name) == (if name == row.mirror_name@ {
                Some(row)
            } else {
                schedule_row(rows, name)
            }),
{
    let after = rows.update(i, row);
    assert forall|name: Seq<char>| #[trigger] schedule_row(after, name) == (if name == row.mirror_name@ {
        Some(row)
    } else {
        schedule_row(rows, name)
    }) by {
        tables::lemma_schedule_index(rows, name);
        tables::lemma_schedule_index(after, name);
        if name == row.mirror_name@ {
            assert(after[i].mirror_name@ == name);
        } else {
            match tables::schedule_index(rows, name) {
                Some(k) => {
                    assert(after[k].mirror_name@ == name);
                },
                None => {
                    if let Some(k) = tables::schedule_index(after, name) {
                        assert(rows[k].mirror_name@ == name);
                    }
                },
            }
        }
    }
}

/// A new schedule is found; every other schedule is found as it was.
pub proof fn lemma_schedule_pushed(rows: Seq<ScheduleRow>, row: ScheduleRow)
    requires
        wellformed::schedules_unique(rows),
        tables::schedule_index(rows, row.mirror_name@) is None,
    ensures
        wellformed::schedules_unique(rows.push(row)),
        forall|name: Seq<char>|
            #[trigger] schedule_row(rows.push(row), name) == (if name == row.mirror_name@ {
                Some(row)
            } else {
                schedule_row(rows, name)
            }),
{
    tables::lemma_schedule_index(rows, row.mirror_name@);
    assert forall|name: Seq<char>| #[trigger] schedule_row(rows.push(row), name) == (if name == row.mirror_name@ {
        Some(row)
    } else {
        schedule_row(rows, name)
    }) by {
        assert(rows.push(row).drop_last() == rows);
        tables::lemma_schedule_index(rows, name);
    }
}

/// A schedule taken out is no longer found; every other schedule is found as it was.
pub proof fn lemma_schedule_removed(rows: Seq<ScheduleRow>, i: int)
    requires
        wellformed::schedules_unique(rows),
        0 <= i < rows.len(),
    ensures
        wellformed::schedules_unique(rows.remove(i)),
        forall|name: Seq<char>|
            #[trigger] schedule_row(rows.remove(i), name) == (if name == rows[i].mirror_name@ {
                None
            } else {
                schedule_row(rows, name)
            }),
{
    let after = rows.remove(i);
    assert forall|x: int, y: int| 0 <= x < y < after.len() implies (#[trigger] after[x]).mirror_name@ != (
    #[trigger] after[y]).mirror_name@ by {
        let p = if x < i { x } else { x + 1 };
        let q = if y < i { y } else { y + 1 };
        assert(rows[p].mirror_name@ != rows[q].mirror_name@);
    }
    assert forall|name: Seq<char>| #[trigger] schedule_row(after, name) == (if name == rows[i].mirror_name@ {
        None
    } else {
        schedule_row(rows, name)
    }) by {
        tables::lemma_schedule_index(rows, name);
        tables::lemma_schedule_index(after, name);
        if let Some(k) = tables::schedule_index(after, name) {
            let p = if k < i { k } else { k + 1 };
            assert(after[k] == rows[p]);
        }
        if let Some(k) = tables::schedule_index(rows, name) {
            if k != i {
                let p = if k < i { k } else { k - 1 };
                assert(after[p] == rows[k]);
            }
        }
    }
}

/// A mirror is found by its own name.
pub proof fn lemma_own_mirror(rows: Seq<MirrorRow>, i: int)
    requires
        wellformed::mirrors_unique(rows),
        0 <= i < rows.len(),
    ensures
        tables::mirror_index(rows, rows[i].name@) == Some(i),
{
    tables::lemma_mirror_index(rows, rows[i].name@);
    let k = tables::mirror_index(rows, rows[i].name@)->0;
    if k < i {
        assert(rows[k].name@ != rows[i].name@);
    } else if i < k {
        assert(rows[i].name@ != rows[k].name@);
    }
}

/// A generation is found by its own mirror and number.
pub proof fn lemma_own_generation(rows: Seq<GenerationRow>, i: int)
    requires
        wellformed::generations_unique(rows),
        0 <= i < rows.len(),
    ensures
        tables::generation_index(rows, rows[i].mirror_name@, rows[i].generation) == Some(i),
{
    tables::lemma_generation_index(rows, rows[i].mirror_name@, rows[i].generation);
    let k = tables::generation_index(rows, rows[i].mirror_name@, rows[i].generation)->0;
    if k < i {
        assert(rows[k].mirror_name@ != rows[i].mirror_name@ || rows[k].generation != rows[i].generation);
    } else if i < k {
        assert(rows[i].mirror_name@ != rows[k].mirror_name@ || rows[i].generation != rows[k].generation);
    }
}

/// A schedule is found by its own mirror.
pub proof fn lemma_own_schedule(rows: Seq<ScheduleRow>, i: int)
    requires
        wellformed::schedules_unique(rows),
        0 <= i < rows.len(),
    ensures
        tables::schedule_index(rows, rows[i].mirror_name@) == Some(i),
{
    tables::lemma_schedule_index(rows, rows[i].mirror_name@);
    let k = tables::schedule_index(rows, rows[i].mirror_name@)->0;
    if k < i {
        assert(rows[k].mirror_name@ != rows[i].mirror_name@);
    } else if i < k {
        assert(rows[i].mirror_name@ != rows[k].mirror_name@);
    }
}

/// A run is found by its own identifier.
pub proof fn lemma_own_run(rows: Seq<RunRow>, i: int)
    requires
        wellformed::runs_unique(rows),
        0 <= i < rows.len(),
    ensures
        tables::run_index(rows, rows[i].record.id@) == Some(i),
{
    tables::lemma_run_index(rows, rows[i].record.id@);
    let k = tables::run_index(rows, rows[i].record.id@)->0;
    if k < i {
        assert(rows[k].record.id@ != rows[i].record.id@);
    } else if i < k {
        assert(rows[i].record.id@ != rows[k].record.id@);
    }
}

/// An attempt is found by its own run and number.
pub proof fn lemma_own_attempt(rows: Seq<AttemptRow>, i: int)
    requires
        wellformed::attempts_unique(rows),
        0 <= i < rows.len(),
    ensures
        tables::attempt_index(rows, rows[i].record.run_id@, rows[i].record.attempt_no) == Some(i),
{
    tables::lemma_attempt_index(rows, rows[i].record.run_id@, rows[i].record.attempt_no);
    let k = tables::attempt_index(rows, rows[i].record.run_id@, rows[i].record.attempt_no)->0;
    if k < i {
        assert(rows[k].record.run_id@ != rows[i].record.run_id@ || rows[k].record.attempt_no
            != rows[i].record.attempt_no);
    } else if i < k {
        assert(rows[i].record.run_id@ != rows[k].record.run_id@ || rows[i].record.attempt_no
            != rows[k].record.attempt_no);
    }
}

/// A node is found by its own name.
pub proof fn lemma_own_node(rows: Seq<NodeRow>, i: int)
    requires
        wellformed::nodes_unique(rows),
        0 <= i < rows.len(),
    ensures
        tables::node_index(rows, rows[i].record.name@) == Some(i),
{
    tables::lemma_node_index(rows, rows[i].record.name@);
    let k = tables::node_index(rows, rows[i].record.name@)->0;
    if k < i {
        assert(rows[k].record.name@ != rows[i].record.name@);
    } else if i < k {
        assert(rows[i].record.name@ != rows[k].record.name@);
    }
}

/// A credential is found by its own node and name.
pub proof fn lemma_own_credential(rows: Seq<CredentialRow>, i: int)
    requires
        wellformed::credentials_unique(rows),
        0 <= i < rows.len(),
    ensures
        tables::credential_index(rows, rows[i].record.node@, rows[i].record.id@) == Some(i),
{
    tables::lemma_credential_index(rows, rows[i].record.node@, rows[i].record.id@);
    let k = tables::credential_index(rows, rows[i].record.node@, rows[i].record.id@)->0;
    if k < i {
        assert(rows[k].record.node@ != rows[i].record.node@ || rows[k].record.id@ != rows[i].record.id@);
    } else if i < k {
        assert(rows[i].record.node@ != rows[k].record.node@ || rows[i].record.id@ != rows[k].record.id@);
    }
}

/// A log is found by its own attempt.
pub proof fn lemma_own_log(rows: Seq<LogRow>, i: int)
    requires
        wellformed::logs_unique(rows),
        0 <= i < rows.len(),
    ensures
        tables::log_index(rows, rows[i].run_id@, rows[i].attempt_no) == Some(i),
{
    tables::lemma_log_index(rows, rows[i].run_id@, rows[i].attempt_no);
    let k = tables::log_index(rows, rows[i].run_id@, rows[i].attempt_no)->0;
    if k < i {
        assert(rows[k].run_id@ != rows[i].run_id@ || rows[k].attempt_no != rows[i].attempt_no);
    } else if i < k {
        assert(rows[i].run_id@ != rows[k].run_id@ || rows[i].attempt_no != rows[k].attempt_no);
    }
}

} // verus!
