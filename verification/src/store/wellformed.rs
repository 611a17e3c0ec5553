//! What always holds of the tables, and the test of it on tables that come from outside.
use super::tables::is_active;
use super::tables::AttemptRow;
use super::tables::CredentialRow;
use super::tables::GenerationRow;
use super::tables::LogRow;
use super::tables::MirrorRow;
use super::tables::NodeRow;
use super::tables::RevisionRow;
use super::tables::RunRow;
use super::tables::ScheduleRow;
use super::tables::Store;
use crate::text;
use vstd::prelude::*;

verus! {

/// The largest number that a table holds.
pub const MAX_NUMBER: u64 = 9_223_372_036_854_775_807;

/// No two mirrors have one name.
pub open spec fn mirrors_unique(rows: Seq<MirrorRow>) -> bool {
    forall|i: int, j: int| 0 <= i < j < rows.len() ==> (#[trigger] rows[i]).name@ != (#[trigger] rows[j]).name@
}

/// No generation of a mirror stands twice.
pub open spec fn generations_unique(rows: Seq<GenerationRow>) -> bool {
    forall|i: int, j: int|
        0 <= i < j < rows.len() ==> (#[trigger] rows[i]).mirror_name@ != (#[trigger] rows[j]).mirror_name@
            || rows[i].generation != rows[j].generation
}

/// No mirror has two schedules.
pub open spec fn schedules_unique(rows: Seq<ScheduleRow>) -> bool {
    forall|i: int, j: int|
        0 <= i < j < rows.len() ==> (#[trigger] rows[i]).mirror_name@ != (#[trigger] rows[j]).mirror_name@
}

/// No two runs have one identifier.
pub open spec fn runs_unique(rows: Seq<RunRow>) -> bool {
    forall|i: int, j: int|
        0 <= i < j < rows.len() ==> (#[trigger] rows[i]).record.id@ != (#[trigger] rows[j]).record.id@
}

/// No two runs answer one request.
pub open spec fn requests_unique(rows: Seq<RunRow>) -> bool {
    forall|i: int, j: int|
        0 <= i < j < rows.len() && (#[trigger] rows[i]).manual_request_id is Some && (
        #[trigger] rows[j]).manual_request_id is Some ==> rows[i].manual_request_id->0@ != rows[j].manual_request_id->0@
}

/// No mirror has two runs that have not ended.
pub open spec fn one_active_run(rows: Seq<RunRow>) -> bool {
    forall|i: int, j: int|
        0 <= i < j < rows.len() && is_active(#[trigger] rows[i]) && is_active(#[trigger] rows[j])
            ==> rows[i].record.mirror_name@ != rows[j].record.mirror_name@
}

/// No attempt of a run stands twice.
pub open spec fn attempts_unique(rows: Seq<AttemptRow>) -> bool {
    forall|i: int, j: int|
        0 <= i < j < rows.len() ==> (#[trigger] rows[i]).record.run_id@ != (#[trigger] rows[j]).record.run_id@
            || rows[i].record.attempt_no != rows[j].record.attempt_no
}

/// No two nodes have one name.
pub open spec fn nodes_unique(rows: Seq<NodeRow>) -> bool {
    forall|i: int, j: int|
        0 <= i < j < rows.len() ==> (#[trigger] rows[i]).record.name@ != (#[trigger] rows[j]).record.name@
}

/// No credential of a node stands twice.
pub open spec fn credentials_unique(rows: Seq<CredentialRow>) -> bool {
    forall|i: int, j: int|
        0 <= i < j < rows.len() ==> (#[trigger] rows[i]).record.node@ != (#[trigger] rows[j]).record.node@
            || rows[i].record.id@ != rows[j].record.id@
}

/// No attempt has two logs.
pub open spec fn logs_unique(rows: Seq<LogRow>) -> bool {
    forall|i: int, j: int|
        0 <= i < j < rows.len() ==> (#[trigger] rows[i]).run_id@ != (#[trigger] rows[j]).run_id@ || rows[i].attempt_no
            != rows[j].attempt_no
}

/// One of the mirrors has the name.
pub open spec fn has_mirror(rows: Seq<MirrorRow>, name: Seq<char>) -> bool {
    exists|i: int| 0 <= i < rows.len() && (#[trigger] rows[i]).name@ == name
}

/// The generation of the mirror is among the rows.
pub open spec fn has_generation(rows: Seq<GenerationRow>, name: Seq<char>, generation: u64) -> bool {
    exists|i: int| 0 <= i < rows.len() && (#[trigger] rows[i]).mirror_name@ == name && rows[i].generation == generation
}

/// One of the runs has the identifier.
pub open spec fn has_run(rows: Seq<RunRow>, id: Seq<char>) -> bool {
    exists|i: int| 0 <= i < rows.len() && (#[trigger] rows[i]).record.id@ == id
}

/// Every mirror's current generation is among the generations and within the tables' numbers.
pub open spec fn mirrors_have_generations(mirrors: Seq<MirrorRow>, generations: Seq<GenerationRow>) -> bool {
    forall|i: int|
        0 <= i < mirrors.len() ==> has_generation(
            generations,
            (#[trigger] mirrors[i]).name@,
            mirrors[i].current_generation,
        ) && mirrors[i].current_generation <= MAX_NUMBER
}

/// Every generation is that of a mirror, and none is beyond the mirror's current one.
pub open spec fn generations_have_mirrors(generations: Seq<GenerationRow>, mirrors: Seq<MirrorRow>) -> bool {
    &&& forall|i: int| 0 <= i < generations.len() ==> has_mirror(mirrors, (#[trigger] generations[i]).mirror_name@)
    &&& forall|i: int, j: int|
        0 <= i < generations.len() && 0 <= j < mirrors.len() && (#[trigger] generations[i]).mirror_name@ == (
        #[trigger] mirrors[j]).name@ ==> generations[i].generation <= mirrors[j].current_generation
}

/// Every schedule is that of a mirror.
pub open spec fn schedules_have_mirrors(schedules: Seq<ScheduleRow>, mirrors: Seq<MirrorRow>) -> bool {
    forall|i: int| 0 <= i < schedules.len() ==> has_mirror(mirrors, (#[trigger] schedules[i]).mirror_name@)
}

/// Every run is that of a mirror and of one of its generations.
pub open spec fn runs_have_mirrors(
    runs: Seq<RunRow>,
    mirrors: Seq<MirrorRow>,
    generations: Seq<GenerationRow>,
) -> bool {
    forall|i: int|
        0 <= i < runs.len() ==> has_mirror(mirrors, (#[trigger] runs[i]).record.mirror_name@) && has_generation(
            generations,
            runs[i].record.mirror_name@,
            runs[i].record.mirror_generation,
        )
}

/// Every attempt is one of a run.
pub open spec fn attempts_have_runs(attempts: Seq<AttemptRow>, runs: Seq<RunRow>) -> bool {
    forall|i: int| 0 <= i < attempts.len() ==> has_run(runs, (#[trigger] attempts[i]).record.run_id@)
}

/// No attempt has a number beyond those that its run has counted.
pub open spec fn attempts_counted(attempts: Seq<AttemptRow>, runs: Seq<RunRow>) -> bool {
    forall|i: int, j: int|
        0 <= i < attempts.len() && 0 <= j < runs.len() && (#[trigger] attempts[i]).record.run_id@ == (
        #[trigger] runs[j]).record.id@ ==> attempts[i].record.attempt_no <= runs[j].attempt_count
}

/// Every revision is within the tables' numbers.
pub open spec fn revisions_bounded(rows: Seq<RevisionRow>) -> bool {
    forall|i: int| 0 <= i < rows.len() ==> (#[trigger] rows[i]).revision <= MAX_NUMBER
}

impl Store {
    /// What always holds of the tables: keys are unique, references lead somewhere, and no mirror has
    /// two runs that have not ended.
    pub open spec fn wf(self) -> bool {
        &&& revisions_bounded(self.revisions@)
        &&& mirrors_unique(self.mirrors@)
        &&& generations_unique(self.generations@)
        &&& schedules_unique(self.schedules@)
        &&& runs_unique(self.runs@)
        &&& requests_unique(self.runs@)
        &&& one_active_run(self.runs@)
        &&& attempts_unique(self.attempts@)
        &&& nodes_unique(self.nodes@)
        &&& credentials_unique(self.credentials@)
        &&& logs_unique(self.logs@)
        &&& mirrors_have_generations(self.mirrors@, self.generations@)
        &&& generations_have_mirrors(self.generations@, self.mirrors@)
        &&& schedules_have_mirrors(self.schedules@, self.mirrors@)
        &&& runs_have_mirrors(self.runs@, self.mirrors@, self.generations@)
        &&& attempts_have_runs(self.attempts@, self.runs@)
        &&& attempts_counted(self.attempts@, self.runs@)
    }

    /// Tables without rows.
    pub fn new() -> (r: Store)
        ensures
            r.wf(),
            r.revisions@.len() == 0,
            r.mirrors@.len() == 0,
            r.generations@.len() == 0,
            r.schedules@.len() == 0,
            r.runs@.len() == 0,
            r.attempts@.len() == 0,
            r.nodes@.len() == 0,
            r.credentials@.len() == 0,
            r.logs@.len() == 0,
    {
        Store {
            revisions: Vec::new(),
            mirrors: Vec::new(),
            generations: Vec::new(),
            schedules: Vec::new(),
            runs: Vec::new(),
            attempts: Vec::new(),
            nodes: Vec::new(),
            credentials: Vec::new(),
            logs: Vec::new(),
        }
    }

    /// Tests tables that come from outside.
    pub fn consistent(&self) -> (r: bool)
        ensures
            r == self.wf(),
    {
        check_revisions(&self.revisions) && check_mirrors(&self.mirrors) && check_generations(&self.generations)
            && check_schedules(&self.schedules) && check_runs(&self.runs) && check_attempts(&self.attempts)
            && check_nodes(&self.nodes) && check_credentials(&self.credentials) && check_logs(&self.logs)
            && check_mirror_references(&self.mirrors, &self.generations) && check_generation_references(
            &self.generations,
            &self.mirrors,
        ) && check_schedule_references(
            &self.schedules,
            &self.mirrors,
        ) && check_run_references(&self.runs, &self.mirrors, &self.generations) && check_attempt_references(
            &self.attempts,
            &self.runs,
        ) && check_counts(&self.attempts, &self.runs)
    }
}

fn check_revisions(rows: &Vec<RevisionRow>) -> (r: bool)
    ensures
        r == revisions_bounded(rows@),
{
    let mut i: usize = 0;
    while i < rows.len()
        invariant
            i <= rows.len(),
            forall|k: int| 0 <= k < i ==> (#[trigger] rows@[k]).revision <= MAX_NUMBER,
        decreases rows.len() - i,
    {
        if rows[i].revision > MAX_NUMBER {
            return false;
        }
        i = i + 1;
    }
    true
}

fn check_mirrors(rows: &Vec<MirrorRow>) -> (r: bool)
    ensures
        r == mirrors_unique(rows@),
{
    let mut j: usize = 0;
    while j < rows.len()
        invariant
            j <= rows.len(),
            mirrors_unique(rows@.take(j as int)),
        decreases rows.len() - j,
    {
        let mut i: usize = 0;
        while i < j
            invariant
                i <= j < rows.len(),
                forall|k: int| 0 <= k < i ==> (#[trigger] rows@[k]).name@ != rows@[j as int].name@,
            decreases j - i,
        {
            if text::same(rows[i].name.as_str(), rows[j].name.as_str()) {
                return false;
            }
            i = i + 1;
        }
        j = j + 1;
    }
    assert(rows@.take(rows@.len() as int) == rows@);
    true
}

fn check_generations(rows: &Vec<GenerationRow>) -> (r: bool)
    ensures
        r == generations_unique(rows@),
{
    let mut j: usize = 0;
    while j < rows.len()
        invariant
            j <= rows.len(),
            generations_unique(rows@.take(j as int)),
        decreases rows.len() - j,
    {
        let mut i: usize = 0;
        while i < j
            invariant
                i <= j < rows.len(),
                forall|k: int|
                    0 <= k < i ==> (#[trigger] rows@[k]).mirror_name@ != rows@[j as int].mirror_name@
                        || rows@[k].generation != rows@[j as int].generation,
            decreases j - i,
        {
            if rows[i].generation == rows[j].generation && text::same(
                rows[i].mirror_name.as_str(),
                rows[j].mirror_name.as_str(),
            ) {
                return false;
            }
            i = i + 1;
        }
        j = j + 1;
    }
    assert(rows@.take(rows@.len() as int) == rows@);
    true
}

fn check_schedules(rows: &Vec<ScheduleRow>) -> (r: bool)
    ensures
        r == schedules_unique(rows@),
{
    let mut j: usize = 0;
    while j < rows.len()
        invariant
            j <= rows.len(),
            schedules_unique(rows@.take(j as int)),
        decreases rows.len() - j,
    {
        let mut i: usize = 0;
        while i < j
            invariant
                i <= j < rows.len(),
                forall|k: int| 0 <= k < i ==> (#[trigger] rows@[k]).mirror_name@ != rows@[j as int].mirror_name@,
            decreases j - i,
        {
            if text::same(rows[i].mirror_name.as_str(), rows[j].mirror_name.as_str()) {
                return false;
            }
            i = i + 1;
        }
        j = j + 1;
    }
    assert(rows@.take(rows@.len() as int) == rows@);
    true
}

/// True when two runs cannot stand side by side.
spec fn runs_clash(a: RunRow, b: RunRow) -> bool {
    ||| a.record.id@ == b.record.id@
    ||| a.manual_request_id is Some && b.manual_request_id is Some && a.manual_request_id->0@
        == b.manual_request_id->0@
    ||| is_active(a) && is_active(b) && a.record.mirror_name@ == b.record.mirror_name@
}

fn check_runs(rows: &Vec<RunRow>) -> (r: bool)
    ensures
        r == (runs_unique(rows@) && requests_unique(rows@) && one_active_run(rows@)),
{
    let mut j: usize = 0;
    while j < rows.len()
        invariant
            j <= rows.len(),
            forall|x: int, y: int| 0 <= x < y < j ==> !runs_clash(#[trigger] rows@[x], #[trigger] rows@[y]),
        decreases rows.len() - j,
    {
        let mut i: usize = 0;
        while i < j
            invariant
                i <= j < rows.len(),
                forall|x: int| 0 <= x < i ==> !runs_clash(#[trigger] rows@[x], rows@[j as int]),
            decreases j - i,
        {
            let a: &RunRow = &rows[i];
            let b: &RunRow = &rows[j];
            if text::same(a.record.id.as_str(), b.record.id.as_str()) {
                return false;
            }
            if let Some(left) = &a.manual_request_id {
                if text::same_opt(&b.manual_request_id, left.as_str()) {
                    return false;
                }
            }
            if !a.record.state.is_terminal() && !b.record.state.is_terminal() && text::same(
                a.record.mirror_name.as_str(),
                b.record.mirror_name.as_str(),
            ) {
                return false;
            }
            i = i + 1;
        }
        j = j + 1;
    }
    true
}

fn check_attempts(rows: &Vec<AttemptRow>) -> (r: bool)
    ensures
        r == attempts_unique(rows@),
{
    let mut j: usize = 0;
    while j < rows.len()
        invariant
            j <= rows.len(),
            attempts_unique(rows@.take(j as int)),
        decreases rows.len() - j,
    {
        let mut i: usize = 0;
        while i < j
            invariant
                i <= j < rows.len(),
                forall|k: int|
                    0 <= k < i ==> (#[trigger] rows@[k]).record.run_id@ != rows@[j as int].record.run_id@
                        || rows@[k].record.attempt_no != rows@[j as int].record.attempt_no,
            decreases j - i,
        {
            if rows[i].record.attempt_no == rows[j].record.attempt_no && text::same(
                rows[i].record.run_id.as_str(),
                rows[j].record.run_id.as_str(),
            ) {
                return false;
            }
            i = i + 1;
        }
        j = j + 1;
    }
    assert(rows@.take(rows@.len() as int) == rows@);
    true
}

fn check_nodes(rows: &Vec<NodeRow>) -> (r: bool)
    ensures
        r == nodes_unique(rows@),
{
    let mut j: usize = 0;
    while j < rows.len()
        invariant
            j <= rows.len(),
            nodes_unique(rows@.take(j as int)),
        decreases rows.len() - j,
    {
        let mut i: usize = 0;
        while i < j
            invariant
                i <= j < rows.len(),
                forall|k: int| 0 <= k < i ==> (#[trigger] rows@[k]).record.name@ != rows@[j as int].record.name@,
            decreases j - i,
        {
            if text::same(rows[i].record.name.as_str(), rows[j].record.name.as_str()) {
                return false;
            }
            i = i + 1;
        }
        j = j + 1;
    }
    assert(rows@.take(rows@.len() as int) == rows@);
    true
}

fn check_credentials(rows: &Vec<CredentialRow>) -> (r: bool)
    ensures
        r == credentials_unique(rows@),
{
    let mut j: usize = 0;
    while j < rows.len()
        invariant
            j <= rows.len(),
            credentials_unique(rows@.take(j as int)),
        decreases rows.len() - j,
    {
        let mut i: usize = 0;
        while i < j
            invariant
                i <= j < rows.len(),
                forall|k: int|
                    0 <= k < i ==> (#[trigger] rows@[k]).record.node@ != rows@[j as int].record.node@
                        || rows@[k].record.id@ != rows@[j as int].record.id@,
            decreases j - i,
        {
            if text::same(rows[i].record.node.as_str(), rows[j].record.node.as_str()) && text::same(
                rows[i].record.id.as_str(),
                rows[j].record.id.as_str(),
            ) {
                return false;
            }
            i = i + 1;
        }
        j = j + 1;
    }
    assert(rows@.take(rows@.len() as int) == rows@);
    true
}

fn check_logs(rows: &Vec<LogRow>) -> (r: bool)
    ensures
        r == logs_unique(rows@),
{
    let mut j: usize = 0;
    while j < rows.len()
        invariant
            j <= rows.len(),
            logs_unique(rows@.take(j as int)),
        decreases rows.len() - j,
    {
        let mut i: usize = 0;
        while i < j
            invariant
                i <= j < rows.len(),
                forall|k: int|
                    0 <= k < i ==> (#[trigger] rows@[k]).run_id@ != rows@[j as int].run_id@ || rows@[k].attempt_no
                        != rows@[j as int].attempt_no,
            decreases j - i,
        {
            if rows[i].attempt_no == rows[j].attempt_no && text::same(
                rows[i].run_id.as_str(),
                rows[j].run_id.as_str(),
            ) {
                return false;
            }
            i = i + 1;
        }
        j = j + 1;
    }
    assert(rows@.take(rows@.len() as int) == rows@);
    true
}

fn mirror_exists(rows: &Vec<MirrorRow>, name: &str) -> (r: bool)
    ensures
        r == has_mirror(rows@, name@),
{
    proof {
        super::tables::lemma_mirror_index(rows@, name@);
    }
    super::tables::find_mirror(rows, name).is_some()
}

fn generation_exists(rows: &Vec<GenerationRow>, name: &str, generation: u64) -> (r: bool)
    ensures
        r == has_generation(rows@, name@, generation),
{
    proof {
        super::tables::lemma_generation_index(rows@, name@, generation);
    }
    super::tables::find_generation(rows, name, generation).is_some()
}

fn run_exists(rows: &Vec<RunRow>, id: &str) -> (r: bool)
    ensures
        r == has_run(rows@, id@),
{
    proof {
        super::tables::lemma_run_index(rows@, id@);
    }
    super::tables::find_run(rows, id).is_some()
}

fn check_mirror_references(mirrors: &Vec<MirrorRow>, generations: &Vec<GenerationRow>) -> (r: bool)
    ensures
        r == mirrors_have_generations(mirrors@, generations@),
{
    let mut i: usize = 0;
    while i < mirrors.len()
        invariant
            i <= mirrors.len(),
            forall|k: int|
                0 <= k < i ==> has_generation(
                    generations@,
                    (#[trigger] mirrors@[k]).name@,
                    mirrors@[k].current_generation,
                ) && mirrors@[k].current_generation <= MAX_NUMBER,
        decreases mirrors.len() - i,
    {
        if mirrors[i].current_generation > MAX_NUMBER || !generation_exists(
            generations,
            mirrors[i].name.as_str(),
            mirrors[i].current_generation,
        ) {
            return false;
        }
        i = i + 1;
    }
    true
}

fn check_generation_references(generations: &Vec<GenerationRow>, mirrors: &Vec<MirrorRow>) -> (r: bool)
    ensures
        r == generations_have_mirrors(generations@, mirrors@),
{
    let mut i: usize = 0;
    while i < generations.len()
        invariant
            i <= generations.len(),
            generations_have_mirrors(generations@.take(i as int), mirrors@),
        decreases generations.len() - i,
    {
        assert(generations@.take(i + 1)[i as int] == generations@[i as int]);
        if !mirror_exists(mirrors, generations[i].mirror_name.as_str()) {
            return false;
        }
        let mut j: usize = 0;
        while j < mirrors.len()
            invariant
                i < generations.len(),
                j <= mirrors.len(),
                forall|k: int|
                    0 <= k < j && generations@[i as int].mirror_name@ == (#[trigger] mirrors@[k]).name@
                        ==> generations@[i as int].generation <= mirrors@[k].current_generation,
            decreases mirrors.len() - j,
        {
            if generations[i].generation > mirrors[j].current_generation && text::same(
                generations[i].mirror_name.as_str(),
                mirrors[j].name.as_str(),
            ) {
                return false;
            }
            j = j + 1;
        }
        proof {
            let shorter = generations@.take(i as int);
            let longer = generations@.take(i + 1);
            assert forall|x: int| 0 <= x < longer.len() implies has_mirror(
                mirrors@,
                (#[trigger] longer[x]).mirror_name@,
            ) by {
                if x < i {
                    assert(longer[x] == shorter[x]);
                }
            }
            assert forall|x: int, y: int|
                0 <= x < longer.len() && 0 <= y < mirrors@.len() && (#[trigger] longer[x]).mirror_name@ == (
                #[trigger] mirrors@[y]).name@ implies longer[x].generation <= mirrors@[y].current_generation by {
                if x < i {
                    assert(longer[x] == shorter[x]);
                }
            }
        }
        i = i + 1;
    }
    assert(generations@.take(generations@.len() as int) == generations@);
    true
}

fn check_schedule_references(schedules: &Vec<ScheduleRow>, mirrors: &Vec<MirrorRow>) -> (r: bool)
    ensures
        r == schedules_have_mirrors(schedules@, mirrors@),
{
    let mut i: usize = 0;
    while i < schedules.len()
        invariant
            i <= schedules.len(),
            forall|k: int| 0 <= k < i ==> has_mirror(mirrors@, (#[trigger] schedules@[k]).mirror_name@),
        decreases schedules.len() - i,
    {
        if !mirror_exists(mirrors, schedules[i].mirror_name.as_str()) {
            return false;
        }
        i = i + 1;
    }
    true
}

fn check_run_references(runs: &Vec<RunRow>, mirrors: &Vec<MirrorRow>, generations: &Vec<GenerationRow>) -> (r: bool)
    ensures
        r == runs_have_mirrors(runs@, mirrors@, generations@),
{
    let mut i: usize = 0;
    while i < runs.len()
        invariant
            i <= runs.len(),
            forall|k: int|
                0 <= k < i ==> has_mirror(mirrors@, (#[trigger] runs@[k]).record.mirror_name@) && has_generation(
                    generations@,
                    runs@[k].record.mirror_name@,
                    runs@[k].record.mirror_generation,
                ),
        decreases runs.len() - i,
    {
        let record: &super::tables::RunRecord = &runs[i].record;
        if !mirror_exists(mirrors, record.mirror_name.as_str()) || !generation_exists(
            generations,
            record.mirror_name.as_str(),
            record.mirror_generation,
        ) {
            return false;
        }
        i = i + 1;
    }
    true
}

fn check_attempt_references(attempts: &Vec<AttemptRow>, runs: &Vec<RunRow>) -> (r: bool)
    ensures
        r == attempts_have_runs(attempts@, runs@),
{
    let mut i: usize = 0;
    while i < attempts.len()
        invariant
            i <= attempts.len(),
            forall|k: int| 0 <= k < i ==> has_run(runs@, (#[trigger] attempts@[k]).record.run_id@),
        decreases attempts.len() - i,
    {
        if !run_exists(runs, attempts[i].record.run_id.as_str()) {
            return false;
        }
        i = i + 1;
    }
    true
}

fn check_counts(attempts: &Vec<AttemptRow>, runs: &Vec<RunRow>) -> (r: bool)
    ensures
        r == attempts_counted(attempts@, runs@),
{
    let mut i: usize = 0;
    while i < attempts.len()
        invariant
            i <= attempts.len(),
            attempts_counted(attempts@.take(i as int), runs@),
        decreases attempts.len() - i,
    {
        let mut j: usize = 0;
        while j < runs.len()
            invariant
                i < attempts.len(),
                j <= runs.len(),
                forall|k: int|
                    0 <= k < j && attempts@[i as int].record.run_id@ == (#[trigger] runs@[k]).record.id@
                        ==> attempts@[i as int].record.attempt_no <= runs@[k].attempt_count,
            decreases runs.len() - j,
        {
            if attempts[i].record.attempt_no > runs[j].attempt_count && text::same(
                attempts[i].record.run_id.as_str(),
                runs[j].record.id.as_str(),
            ) {
                return false;
            }
            j = j + 1;
        }
        i = i + 1;
    }
    assert(attempts@.take(attempts@.len() as int) == attempts@);
    true
}

} // verus!
