//! Changes that leave every key in place keep the tables whole.
use super::tables::AttemptRow;
use super::tables::RunRow;
use super::tables::ScheduleRow;
use super::tables::Store;
use super::wellformed;
use vstd::prelude::*;

verus! {

/// True when the runs have the same keys, and none that had ended has come back to life.
pub open spec fn run_keys_kept(before: Seq<RunRow>, after: Seq<RunRow>) -> bool {
    &&& after.len() == before.len()
    &&& forall|i: int|
        0 <= i < before.len() ==> {
            &&& (#[trigger] after[i]).record.id == before[i].record.id
            &&& after[i].record.mirror_name == before[i].record.mirror_name
            &&& after[i].record.mirror_generation == before[i].record.mirror_generation
            &&& after[i].manual_request_id == before[i].manual_request_id
            &&& after[i].attempt_count == before[i].attempt_count
            &&& before[i].record.state.terminal() ==> after[i].record.state.terminal()
        }
}

/// True when the attempts have the same keys.
pub open spec fn attempt_keys_kept(before: Seq<AttemptRow>, after: Seq<AttemptRow>) -> bool {
    &&& after.len() == before.len()
    &&& forall|i: int|
        0 <= i < before.len() ==> (#[trigger] after[i]).record.run_id == before[i].record.run_id
            && after[i].record.attempt_no == before[i].record.attempt_no
}

/// True when the schedules are those of the same mirrors.
pub open spec fn schedule_keys_kept(before: Seq<ScheduleRow>, after: Seq<ScheduleRow>) -> bool {
    &&& after.len() == before.len()
    &&& forall|i: int| 0 <= i < before.len() ==> (#[trigger] after[i]).mirror_name == before[i].mirror_name
}

/// Tables whose keys stay, and whose other tables are the same, stay whole.
pub proof fn lemma_keys_kept(before: Store, after: Store)
    requires
        before.wf(),
        after.revisions == before.revisions,
        after.mirrors == before.mirrors,
        after.generations == before.generations,
        after.nodes == before.nodes,
        after.credentials == before.credentials,
        after.logs == before.logs,
        run_keys_kept(before.runs@, after.runs@),
        attempt_keys_kept(before.attempts@, after.attempts@),
        schedule_keys_kept(before.schedules@, after.schedules@),
    ensures
        after.wf(),
{
    assert forall|k: int| 0 <= k < after.attempts@.len() implies wellformed::has_run(
        after.runs@,
        (#[trigger] after.attempts@[k]).record.run_id@,
    ) by {
        assert(wellformed::has_run(before.runs@, before.attempts@[k].record.run_id@));
        let w = choose|w: int|
            0 <= w < before.runs@.len() && (#[trigger] before.runs@[w]).record.id@
                == before.attempts@[k].record.run_id@;
        assert(after.runs@[w].record.id@ == after.attempts@[k].record.run_id@);
    }
    assert forall|x: int, y: int|
        0 <= x < after.attempts@.len() && 0 <= y < after.runs@.len() && (#[trigger] after.attempts@[x]).record.run_id@
            == (#[trigger] after.runs@[y]).record.id@ implies after.attempts@[x].record.attempt_no
        <= after.runs@[y].attempt_count by {
        assert(before.attempts@[x].record.run_id@ == before.runs@[y].record.id@);
    }
    assert forall|k: int| 0 <= k < after.schedules@.len() implies wellformed::has_mirror(
        after.mirrors@,
        (#[trigger] after.schedules@[k]).mirror_name@,
    ) by {
        assert(wellformed::has_mirror(before.mirrors@, before.schedules@[k].mirror_name@));
    }
    assert forall|k: int| 0 <= k < after.runs@.len() implies wellformed::has_mirror(
        after.mirrors@,
        (#[trigger] after.runs@[k]).record.mirror_name@,
    ) && wellformed::has_generation(
        after.generations@,
        after.runs@[k].record.mirror_name@,
        after.runs@[k].record.mirror_generation,
    ) by {
        assert(wellformed::has_mirror(before.mirrors@, before.runs@[k].record.mirror_name@));
    }
}

} // verus!
