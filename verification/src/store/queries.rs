//! Questions about the tables.
use super::lookup;
use super::ranked;
use super::ranked::in_rank;
use super::ranked::Ranked;
use super::tables;
use super::tables::AttemptRecord;
use super::tables::AttemptRow;
use super::tables::CredentialRecord;
use super::tables::CredentialRow;
use super::tables::LogRow;
use super::tables::MirrorRow;
use super::tables::NodeRecord;
use super::tables::NodeRow;
use super::tables::RunRecord;
use super::tables::RunRow;
use super::tables::ScheduleRow;
use super::tables::Store;
use super::tables::StoreError;
use super::wellformed;
use crate::domain::schedule::RunTrigger;
use crate::domain::state::RunState;
use crate::text;
use vstd::prelude::*;

verus! {

/// A mirror as it is listed.
#[derive(Debug, PartialEq, Eq)]
pub struct MirrorRecord {
    pub name: String,
    pub managed: bool,
    pub enabled: bool,
    pub owner_node: String,
    pub current_generation: u64,
    pub next_due_at_ms: Option<i64>,
    pub scheduled_due_since_ms: Option<i64>,
}

/// Which runs are wanted.
#[derive(Debug, PartialEq, Eq)]
pub struct RunQuery {
    pub mirror: Option<String>,
    pub node: Option<String>,
    pub state: Option<RunState>,
    pub trigger: Option<RunTrigger>,
    pub limit: u32,
    pub before: Option<String>,
}

impl Default for RunQuery {
    fn default() -> (r: Self)
        ensures
            r.mirror is None,
            r.node is None,
            r.state is None,
            r.trigger is None,
            r.limit == 0,
            r.before is None,
    {
        RunQuery { mirror: None, node: None, state: None, trigger: None, limit: 0, before: None }
    }
}

/// How much there is to do.
#[derive(Clone, Copy, Debug, PartialEq, Eq, Structural)]
pub struct OperationalCounts {
    pub pending_runs: u64,
    pub running_runs: u64,
    pub due_mirrors: u64,
    pub stored_log_bytes: u64,
}

/// How a managed mirror stands.
#[derive(Debug, PartialEq, Eq)]
pub struct MirrorOperationalRecord {
    pub name: String,
    pub owner_node: String,
    pub enabled: bool,
    pub current_run_state: Option<RunState>,
    pub current_run_created_at_ms: Option<i64>,
    pub last_run_state: Option<RunState>,
    pub last_terminal_at_ms: Option<i64>,
    pub last_success_at_ms: Option<i64>,
    pub next_due_at_ms: Option<i64>,
    pub due_since_ms: Option<i64>,
}

/// Newer runs first; of runs of one moment the one with the greater identifier.
pub open spec fn newer(a: RunRecord, b: RunRecord) -> bool {
    a.created_at_ms > b.created_at_ms || (a.created_at_ms == b.created_at_ms && text::lex_less(b.id@, a.id@))
}

impl Ranked for RunRecord {
    open spec fn precedes(&self, other: &Self) -> bool {
        newer(*self, *other)
    }

    fn is_before(&self, other: &Self) -> (r: bool) {
        self.created_at_ms > other.created_at_ms || (self.created_at_ms == other.created_at_ms && text::less(
            other.id.as_str(),
            self.id.as_str(),
        ))
    }

    proof fn lemma_order(a: &Self, b: &Self, c: &Self) {
        text::lemma_lex_less_total(a.id@, b.id@);
        if text::lex_less(c.id@, b.id@) && text::lex_less(b.id@, a.id@) {
            text::lemma_lex_less_transitive(c.id@, b.id@, a.id@);
        }
    }
}

impl Ranked for AttemptRecord {
    open spec fn precedes(&self, other: &Self) -> bool {
        self.attempt_no < other.attempt_no
    }

    fn is_before(&self, other: &Self) -> (r: bool) {
        self.attempt_no < other.attempt_no
    }

    proof fn lemma_order(a: &Self, b: &Self, c: &Self) {
    }
}

impl Ranked for NodeRecord {
    open spec fn precedes(&self, other: &Self) -> bool {
        text::lex_less(self.name@, other.name@)
    }

    fn is_before(&self, other: &Self) -> (r: bool) {
        text::less(self.name.as_str(), other.name.as_str())
    }

    proof fn lemma_order(a: &Self, b: &Self, c: &Self) {
        text::lemma_lex_less_total(a.name@, b.name@);
        if text::lex_less(a.name@, b.name@) && text::lex_less(b.name@, c.name@) {
            text::lemma_lex_less_transitive(a.name@, b.name@, c.name@);
        }
    }
}

impl Ranked for MirrorRecord {
    open spec fn precedes(&self, other: &Self) -> bool {
        text::lex_less(self.name@, other.name@)
    }

    fn is_before(&self, other: &Self) -> (r: bool) {
        text::less(self.name.as_str(), other.name.as_str())
    }

    proof fn lemma_order(a: &Self, b: &Self, c: &Self) {
        text::lemma_lex_less_total(a.name@, b.name@);
        if text::lex_less(a.name@, b.name@) && text::lex_less(b.name@, c.name@) {
            text::lemma_lex_less_transitive(a.name@, b.name@, c.name@);
        }
    }
}

impl Ranked for MirrorOperationalRecord {
    open spec fn precedes(&self, other: &Self) -> bool {
        text::lex_less(self.name@, other.name@)
    }

    fn is_before(&self, other: &Self) -> (r: bool) {
        text::less(self.name.as_str(), other.name.as_str())
    }

    proof fn lemma_order(a: &Self, b: &Self, c: &Self) {
        text::lemma_lex_less_total(a.name@, b.name@);
        if text::lex_less(a.name@, b.name@) && text::lex_less(b.name@, c.name@) {
            text::lemma_lex_less_transitive(a.name@, b.name@, c.name@);
        }
    }
}

impl Ranked for CredentialRecord {
    open spec fn precedes(&self, other: &Self) -> bool {
        self.created_at_ms > other.created_at_ms || (self.created_at_ms == other.created_at_ms && text::lex_less(
            other.id@,
            self.id@,
        ))
    }

    fn is_before(&self, other: &Self) -> (r: bool) {
        self.created_at_ms > other.created_at_ms || (self.created_at_ms == other.created_at_ms && text::less(
            other.id.as_str(),
            self.id.as_str(),
        ))
    }

    proof fn lemma_order(a: &Self, b: &Self, c: &Self) {
        text::lemma_lex_less_total(a.id@, b.id@);
        if text::lex_less(c.id@, b.id@) && text::lex_less(b.id@, a.id@) {
            text::lemma_lex_less_transitive(c.id@, b.id@, a.id@);
        }
    }
}

/// True when a run is wanted.
pub open spec fn run_wanted(run: RunRecord, query: RunQuery, cursor: Option<RunRecord>) -> bool {
    &&& query.mirror is Some ==> run.mirror_name@ == query.mirror->0@
    &&& query.node is Some ==> run.owner_node@ == query.node->0@
    &&& query.state is Some ==> run.state == query.state->0
    &&& query.trigger is Some ==> run.trigger == query.trigger->0
    &&& cursor is Some ==> newer(cursor->0, run)
}

/// The wanted runs in the order of the table.
pub open spec fn runs_wanted(rows: Seq<RunRow>, query: RunQuery, cursor: Option<RunRecord>) -> Seq<RunRecord>
    decreases rows.len(),
{
    if rows.len() == 0 {
        Seq::empty()
    } else if run_wanted(rows.last().record, query, cursor) {
        runs_wanted(rows.drop_last(), query, cursor).push(rows.last().record)
    } else {
        runs_wanted(rows.drop_last(), query, cursor)
    }
}

/// Some runs in the order in which they are listed.
pub open spec fn is_listing(full: Seq<RunRecord>, wanted: Seq<RunRecord>) -> bool {
    in_rank(full) && full.to_multiset() == wanted.to_multiset()
}

/// A page of some runs: the first of them, newest first, up to the limit.
pub open spec fn is_page(page: Seq<RunRecord>, wanted: Seq<RunRecord>, limit: int) -> bool {
    exists|full: Seq<RunRecord>|
        #[trigger] is_listing(full, wanted) && page == full.take(
            if full.len() < limit {
                full.len() as int
            } else {
                limit
            },
        )
}

/// The run that a query names as the last one known, if it names one.
pub open spec fn cursor_of(rows: Seq<RunRow>, query: RunQuery) -> Option<RunRecord> {
    match query.before {
        Some(id) => Some(rows[tables::run_index(rows, id@)->0].record),
        None => None,
    }
}

/// True of the page that answers a query.
pub open spec fn answers(rows: Seq<RunRow>, query: RunQuery, page: Seq<RunRecord>) -> bool {
    is_page(page, runs_wanted(rows, query, cursor_of(rows, query)), query.limit as int)
}

/// True of queries that want the same runs, apart from where they begin and end.
pub open spec fn same_filters(a: RunQuery, b: RunQuery) -> bool {
    &&& text::opt_view(a.mirror) == text::opt_view(b.mirror)
    &&& text::opt_view(a.node) == text::opt_view(b.node)
    &&& a.state == b.state
    &&& a.trigger == b.trigger
}

/// True of pages that were read one after the other until one was empty, each from the last run of
/// the one before it.
pub open spec fn read_in_turn(rows: Seq<RunRow>, queries: Seq<RunQuery>, pages: Seq<Seq<RunRecord>>) -> bool {
    &&& queries.len() == pages.len()
    &&& pages.len() > 0
    &&& pages.last().len() == 0
    &&& forall|k: int|
        0 <= k < pages.len() ==> #[trigger] answers(rows, queries[k], pages[k]) && queries[k].limit > 0
            && same_filters(queries[k], queries[0])
    &&& forall|k: int|
        0 < k < pages.len() ==> pages[k - 1].len() > 0 && (#[trigger] queries[k]).before is Some
            && queries[k].before->0@ == pages[k - 1].last().id@
}

fn wants(run: &RunRecord, query: &RunQuery, cursor: &Option<RunRecord>) -> (r: bool)
    ensures
        r == run_wanted(*run, *query, *cursor),
{
    if let Some(mirror) = &query.mirror {
        if !text::same(run.mirror_name.as_str(), mirror.as_str()) {
            return false;
        }
    }
    if let Some(node) = &query.node {
        if !text::same(run.owner_node.as_str(), node.as_str()) {
            return false;
        }
    }
    if let Some(state) = query.state {
        if run.state != state {
            return false;
        }
    }
    if let Some(trigger) = query.trigger {
        if run.trigger != trigger {
            return false;
        }
    }
    match cursor {
        Some(record) => record.is_before(run),
        None => true,
    }
}

/// The attempts of a run in the order of the table.
pub open spec fn attempts_of(rows: Seq<AttemptRow>, run_id: Seq<char>) -> Seq<AttemptRecord>
    decreases rows.len(),
{
    if rows.len() == 0 {
        Seq::empty()
    } else if rows.last().record.run_id@ == run_id {
        attempts_of(rows.drop_last(), run_id).push(rows.last().record)
    } else {
        attempts_of(rows.drop_last(), run_id)
    }
}

/// The credentials of a node in the order of the table.
pub open spec fn credentials_of(rows: Seq<CredentialRow>, node: Seq<char>) -> Seq<CredentialRecord>
    decreases rows.len(),
{
    if rows.len() == 0 {
        Seq::empty()
    } else if rows.last().record.node@ == node {
        credentials_of(rows.drop_last(), node).push(rows.last().record)
    } else {
        credentials_of(rows.drop_last(), node)
    }
}

/// A mirror with what its schedule has come to.
pub open spec fn mirror_record(mirror: MirrorRow, schedule: Option<ScheduleRow>) -> MirrorRecord {
    MirrorRecord {
        name: mirror.name,
        managed: mirror.managed,
        enabled: mirror.enabled,
        owner_node: mirror.owner_node,
        current_generation: mirror.current_generation,
        next_due_at_ms: match schedule {
            Some(row) => row.runtime.next_due_at_ms,
            None => None,
        },
        scheduled_due_since_ms: match schedule {
            Some(row) => if row.runtime.catch_up_pending {
                row.runtime.catch_up_since_ms
            } else {
                None
            },
            None => None,
        },
    }
}

/// The mirrors with their schedules, in the order of the table.
pub open spec fn mirror_records(s: Store) -> Seq<MirrorRecord> {
    s.mirrors@.map_values(
        |mirror: MirrorRow| mirror_record(mirror, lookup::schedule_row(s.schedules@, mirror.name@)),
    )
}

/// The newest run of a mirror among those that have ended, or among those that have not.
pub open spec fn newest_run(rows: Seq<RunRow>, mirror: Seq<char>, ended: bool) -> Option<RunRecord>
    decreases rows.len(),
{
    if rows.len() == 0 {
        None
    } else {
        let before = newest_run(rows.drop_last(), mirror, ended);
        let last = rows.last().record;
        if last.mirror_name@ == mirror && last.state.terminal() == ended && (before is None || newer(last, before->0)) {
            Some(last)
        } else {
            before
        }
    }
}

/// The latest moment at which a run of a mirror succeeded.
pub open spec fn latest_success(rows: Seq<RunRow>, mirror: Seq<char>) -> Option<i64>
    decreases rows.len(),
{
    if rows.len() == 0 {
        None
    } else {
        let before = latest_success(rows.drop_last(), mirror);
        let last = rows.last().record;
        if last.mirror_name@ == mirror && last.state is Succeeded && last.finished_at_ms is Some && (before is None
            || last.finished_at_ms->0 > before->0) {
            last.finished_at_ms
        } else {
            before
        }
    }
}

/// How a mirror stands.
pub open spec fn operational_record(s: Store, mirror: MirrorRow) -> MirrorOperationalRecord {
    let current = newest_run(s.runs@, mirror.name@, false);
    let last = newest_run(s.runs@, mirror.name@, true);
    let schedule = lookup::schedule_row(s.schedules@, mirror.name@);
    MirrorOperationalRecord {
        name: mirror.name,
        owner_node: mirror.owner_node,
        enabled: mirror.enabled,
        current_run_state: match current {
            Some(run) => Some(run.state),
            None => None,
        },
        current_run_created_at_ms: match current {
            Some(run) => Some(run.created_at_ms),
            None => None,
        },
        last_run_state: match last {
            Some(run) => Some(run.state),
            None => None,
        },
        last_terminal_at_ms: match last {
            Some(run) => run.finished_at_ms,
            None => None,
        },
        last_success_at_ms: latest_success(s.runs@, mirror.name@),
        next_due_at_ms: match schedule {
            Some(row) => row.runtime.next_due_at_ms,
            None => None,
        },
        due_since_ms: match schedule {
            Some(row) => row.runtime.catch_up_since_ms,
            None => None,
        },
    }
}

/// How the managed mirrors among some stand, in the order of the table.
pub open spec fn operational_records(s: Store, mirrors: Seq<MirrorRow>) -> Seq<MirrorOperationalRecord>
    decreases mirrors.len(),
{
    if mirrors.len() == 0 {
        Seq::empty()
    } else if mirrors.last().managed {
        operational_records(s, mirrors.drop_last()).push(operational_record(s, mirrors.last()))
    } else {
        operational_records(s, mirrors.drop_last())
    }
}

/// How many runs are in a state.
pub open spec fn count_runs(rows: Seq<RunRow>, state: RunState) -> nat
    decreases rows.len(),
{
    if rows.len() == 0 {
        0
    } else {
        count_runs(rows.drop_last(), state) + (if rows.last().record.state == state { 1nat } else { 0nat })
    }
}

/// How many schedules wait for a run.
pub open spec fn count_due(rows: Seq<ScheduleRow>) -> nat
    decreases rows.len(),
{
    if rows.len() == 0 {
        0
    } else {
        count_due(rows.drop_last()) + (if rows.last().runtime.catch_up_pending { 1nat } else { 0nat })
    }
}

/// How many bytes the logs hold that have not expired.
pub open spec fn kept_bytes(rows: Seq<LogRow>) -> nat
    decreases rows.len(),
{
    if rows.len() == 0 {
        0
    } else {
        kept_bytes(rows.drop_last()) + (if rows.last().metadata.expired_at_ms is None {
            rows.last().metadata.stored_bytes as nat
        } else {
            0nat
        })
    }
}

/// The earlier of two moments, where there are any.
pub open spec fn earlier(a: Option<i64>, b: Option<i64>) -> Option<i64> {
    match (a, b) {
        (Some(x), Some(y)) => Some(if y < x { y } else { x }),
        (Some(x), None) => Some(x),
        (None, _) => b,
    }
}

/// The earliest moment at which a schedule is due.
pub open spec fn earliest_due(rows: Seq<ScheduleRow>) -> Option<i64>
    decreases rows.len(),
{
    if rows.len() == 0 {
        None
    } else {
        earlier(earliest_due(rows.drop_last()), rows.last().runtime.next_due_at_ms)
    }
}

/// The earliest moment at which a running run is to be retried.
pub open spec fn earliest_retry(rows: Seq<RunRow>) -> Option<i64>
    decreases rows.len(),
{
    if rows.len() == 0 {
        None
    } else if rows.last().record.state is Running {
        earlier(earliest_retry(rows.drop_last()), rows.last().record.retry_due_at_ms)
    } else {
        earliest_retry(rows.drop_last())
    }
}

fn earlier_of(a: Option<i64>, b: Option<i64>) -> (r: Option<i64>)
    ensures
        r == earlier(a, b),
{
    match (a, b) {
        (Some(x), Some(y)) => Some(
            if y < x {
                y
            } else {
                x
            },
        ),
        (Some(x), None) => Some(x),
        (None, other) => other,
    }
}

/// How much there is of what the operator watches.
pub open spec fn are_counts(s: Store, r: OperationalCounts) -> bool {
    &&& r.pending_runs == count_runs(s.runs@, RunState::Pending)
    &&& r.running_runs == count_runs(s.runs@, RunState::Running)
    &&& r.due_mirrors == count_due(s.schedules@)
    &&& r.stored_log_bytes == (if kept_bytes(s.logs@) <= u64::MAX {
        kept_bytes(s.logs@)
    } else {
        u64::MAX as nat
    })
}

/// When there is something to do next.
pub open spec fn is_wakeup(s: Store, r: Option<i64>) -> bool {
    r == earlier(earliest_due(s.schedules@), earliest_retry(s.runs@))
}

/// What is found by the name of a run.
pub open spec fn is_run_found(rows: Seq<RunRow>, id: Seq<char>, r: Option<RunRecord>) -> bool {
    r == (match tables::run_index(rows, id) {
        Some(i) => Some(rows[i].record),
        None => None,
    })
}

/// What is found by the name of a mirror.
pub open spec fn is_mirror_found(s: Store, name: Seq<char>, r: Option<MirrorRecord>) -> bool {
    r == (match lookup::mirror_row(s.mirrors@, name) {
        Some(mirror) => Some(mirror_record(mirror, lookup::schedule_row(s.schedules@, mirror.name@))),
        None => None,
    })
}

/// Whether an attempt belongs to a node.
pub open spec fn is_attempt_of(s: Store, run_id: Seq<char>, attempt_no: u32, node: Seq<char>) -> bool {
    (tables::attempt_index(s.attempts@, run_id, attempt_no) is Some && tables::run_index(
        s.runs@,
        run_id,
    ) is Some && s.runs@[tables::run_index(s.runs@, run_id)->0].record.owner_node@ == node)
}

impl Store {
    /// The run of an identifier.
    pub fn get_run(&self, id: &str) -> (r: Option<RunRecord>)
        ensures
            is_run_found(self.runs@, id@, r),
    {
        match tables::find_run(&self.runs, id) {
            Some(i) => Some(self.runs[i].record.clone()),
            None => None,
        }
    }

    fn collect_runs(&self, query: &RunQuery, cursor: &Option<RunRecord>) -> (r: Vec<RunRecord>)
        ensures
            r@ == runs_wanted(self.runs@, *query, *cursor),
    {
        let mut out: Vec<RunRecord> = Vec::new();
        let mut i: usize = 0;
        while i < self.runs.len()
            invariant
                i <= self.runs.len(),
                out@ == runs_wanted(self.runs@.take(i as int), *query, *cursor),
            decreases self.runs.len() - i,
        {
            assert(self.runs@.take(i + 1).drop_last() == self.runs@.take(i as int));
            if wants(&self.runs[i].record, query, cursor) {
                out.push(self.runs[i].record.clone());
            }
            i = i + 1;
        }
        assert(self.runs@.take(self.runs@.len() as int) == self.runs@);
        out
    }

    /// All runs, newest first.
    pub fn list_runs(&self) -> (r: Vec<RunRecord>)
        ensures
            in_rank(r@),
            r@.to_multiset() == self.runs@.map_values(|run: RunRow| run.record).to_multiset(),
    {
        let query: RunQuery = RunQuery { mirror: None, node: None, state: None, trigger: None, limit: 0, before: None };
        let all: Vec<RunRecord> = self.collect_runs(&query, &None);
        proof {
            lemma_all_wanted(self.runs@, query);
        }
        ranked::ranked(all)
    }

    /// A page of the runs that are wanted, newest first, after the run that the query names.
    pub fn query_runs(&self, query: &RunQuery) -> (r: Result<Vec<RunRecord>, StoreError>)
        ensures
            match r {
                Err(StoreError::InvalidConfig(message)) => (query.limit == 0 || query.limit > 500) && message@
                    == "Run query limit must be between 1 and 500"@,
                Err(error) => 0 < query.limit <= 500 && error == StoreError::AttemptNotFound && query.before is Some
                    && tables::run_index(self.runs@, query.before->0@) is None,
                Ok(page) => {
                    &&& 0 < query.limit <= 500
                    &&& query.before is Some ==> tables::run_index(self.runs@, query.before->0@) is Some
                    &&& answers(self.runs@, *query, page@)
                },
            },
    {
        if query.limit == 0 || query.limit > 500 {
            return Err(StoreError::InvalidConfig("Run query limit must be between 1 and 500".to_owned()));
        }
        let cursor: Option<RunRecord> = match &query.before {
            None => None,
            Some(id) => match tables::find_run(&self.runs, id.as_str()) {
                None => {
                    return Err(StoreError::AttemptNotFound);
                },
                Some(i) => Some(self.runs[i].record.clone()),
            },
        };
        let wanted: Vec<RunRecord> = self.collect_runs(query, &cursor);
        let ghost wanted_runs = wanted@;
        let mut page: Vec<RunRecord> = ranked::ranked(wanted);
        let ghost full = page@;
        assert(is_listing(full, wanted_runs));
        let limit: usize = query.limit as usize;
        if page.len() > limit {
            page.truncate(limit);
            assert(page@ == full.take(limit as int));
        } else {
            assert(page@ == full.take(full.len() as int));
        }
        assert(page@ == full.take(if full.len() < query.limit as int { full.len() as int } else { query.limit as int }));
        Ok(page)
    }

    /// The attempts of a run in their order.
    pub fn list_attempts(&self, run_id: &str) -> (r: Vec<AttemptRecord>)
        ensures
            in_rank(r@),
            r@.to_multiset() == attempts_of(self.attempts@, run_id@).to_multiset(),
    {
        let mut out: Vec<AttemptRecord> = Vec::new();
        let mut i: usize = 0;
        while i < self.attempts.len()
            invariant
                i <= self.attempts.len(),
                out@ == attempts_of(self.attempts@.take(i as int), run_id@),
            decreases self.attempts.len() - i,
        {
            assert(self.attempts@.take(i + 1).drop_last() == self.attempts@.take(i as int));
            if text::same(self.attempts[i].record.run_id.as_str(), run_id) {
                out.push(self.attempts[i].record.clone());
            }
            i = i + 1;
        }
        assert(self.attempts@.take(self.attempts@.len() as int) == self.attempts@);
        ranked::ranked(out)
    }

    /// True when a node owns the run of an attempt.
    pub fn attempt_belongs_to_node(&self, run_id: &str, attempt_no: u32, node: &str) -> (r: bool)
        ensures
            r == is_attempt_of(*self, run_id@, attempt_no, node@),
    {
        if tables::find_attempt(&self.attempts, run_id, attempt_no).is_none() {
            return false;
        }
        match tables::find_run(&self.runs, run_id) {
            Some(j) => text::same(self.runs[j].record.owner_node.as_str(), node),
            None => false,
        }
    }

    /// The nodes in the order of their names.
    pub fn list_nodes(&self) -> (r: Vec<NodeRecord>)
        ensures
            in_rank(r@),
            r@.to_multiset() == self.nodes@.map_values(|node: NodeRow| node.record).to_multiset(),
    {
        let mut out: Vec<NodeRecord> = Vec::new();
        let mut i: usize = 0;
        while i < self.nodes.len()
            invariant
                i <= self.nodes.len(),
                out@.len() == i,
                forall|k: int| 0 <= k < i ==> (#[trigger] out@[k]) == self.nodes@[k].record,
            decreases self.nodes.len() - i,
        {
            out.push(self.nodes[i].record.clone());
            i = i + 1;
        }
        assert(out@ == self.nodes@.map_values(|node: NodeRow| node.record));
        ranked::ranked(out)
    }

    fn record_of(&self, i: usize) -> (r: MirrorRecord)
        requires
            i < self.mirrors@.len(),
        ensures
            r == mirror_record(
                self.mirrors@[i as int],
                lookup::schedule_row(self.schedules@, self.mirrors@[i as int].name@),
            ),
    {
        let mirror: &MirrorRow = &self.mirrors[i];
        let (next_due_at_ms, scheduled_due_since_ms): (Option<i64>, Option<i64>) = match tables::find_schedule(
            &self.schedules,
            mirror.name.as_str(),
        ) {
            None => (None, None),
            Some(k) => (
                self.schedules[k].runtime.next_due_at_ms,
                if self.schedules[k].runtime.catch_up_pending {
                    self.schedules[k].runtime.catch_up_since_ms
                } else {
                    None
                },
            ),
        };
        MirrorRecord {
            name: mirror.name.clone(),
            managed: mirror.managed,
            enabled: mirror.enabled,
            owner_node: mirror.owner_node.clone(),
            current_generation: mirror.current_generation,
            next_due_at_ms,
            scheduled_due_since_ms,
        }
    }

    /// The mirrors in the order of their names.
    pub fn list_mirrors(&self) -> (r: Vec<MirrorRecord>)
        ensures
            in_rank(r@),
            r@.to_multiset() == mirror_records(*self).to_multiset(),
    {
        let mut out: Vec<MirrorRecord> = Vec::new();
        let mut i: usize = 0;
        while i < self.mirrors.len()
            invariant
                i <= self.mirrors.len(),
                out@.len() == i,
                forall|k: int|
                    0 <= k < i ==> (#[trigger] out@[k]) == mirror_record(
                        self.mirrors@[k],
                        lookup::schedule_row(self.schedules@, self.mirrors@[k].name@),
                    ),
            decreases self.mirrors.len() - i,
        {
            out.push(self.record_of(i));
            i = i + 1;
        }
        assert(out@ == mirror_records(*self));
        ranked::ranked(out)
    }

    /// The mirror of a name.
    pub fn get_mirror(&self, name: &str) -> (r: Option<MirrorRecord>)
        ensures
            is_mirror_found(*self, name@, r),
    {
        match tables::find_mirror(&self.mirrors, name) {
            Some(i) => Some(self.record_of(i)),
            None => None,
        }
    }

    fn find_newest(&self, mirror: &str, ended: bool) -> (r: Option<usize>)
        ensures
            match r {
                Some(i) => i < self.runs@.len() && newest_run(self.runs@, mirror@, ended) == Some(
                    self.runs@[i as int].record,
                ),
                None => newest_run(self.runs@, mirror@, ended) is None,
            },
    {
        let mut best: Option<usize> = None;
        let mut i: usize = 0;
        while i < self.runs.len()
            invariant
                i <= self.runs.len(),
                match best {
                    Some(b) => b < i && newest_run(self.runs@.take(i as int), mirror@, ended) == Some(
                        self.runs@[b as int].record,
                    ),
                    None => newest_run(self.runs@.take(i as int), mirror@, ended) is None,
                },
            decreases self.runs.len() - i,
        {
            assert(self.runs@.take(i + 1).drop_last() == self.runs@.take(i as int));
            let record: &RunRecord = &self.runs[i].record;
            if record.state.is_terminal() == ended && text::same(record.mirror_name.as_str(), mirror) {
                let ahead: bool = match best {
                    Some(b) => record.is_before(&self.runs[b].record),
                    None => true,
                };
                if ahead {
                    best = Some(i);
                }
            }
            i = i + 1;
        }
        assert(self.runs@.take(self.runs@.len() as int) == self.runs@);
        best
    }

    fn find_success(&self, mirror: &str) -> (r: Option<i64>)
        ensures
            r == latest_success(self.runs@, mirror@),
    {
        let mut best: Option<i64> = None;
        let mut i: usize = 0;
        while i < self.runs.len()
            invariant
                i <= self.runs.len(),
                best == latest_success(self.runs@.take(i as int), mirror@),
            decreases self.runs.len() - i,
        {
            assert(self.runs@.take(i + 1).drop_last() == self.runs@.take(i as int));
            let record: &RunRecord = &self.runs[i].record;
            if record.state == RunState::Succeeded && text::same(record.mirror_name.as_str(), mirror) {
                if let Some(at) = record.finished_at_ms {
                    let ahead: bool = match best {
                        Some(moment) => at > moment,
                        None => true,
                    };
                    if ahead {
                        best = Some(at);
                    }
                }
            }
            i = i + 1;
        }
        assert(self.runs@.take(self.runs@.len() as int) == self.runs@);
        best
    }

    /// How the managed mirrors stand, in the order of their names.
    pub fn mirror_operational_status(&self) -> (r: Vec<MirrorOperationalRecord>)
        ensures
            in_rank(r@),
            r@.to_multiset() == operational_records(*self, self.mirrors@).to_multiset(),
    {
        let mut out: Vec<MirrorOperationalRecord> = Vec::new();
        let mut i: usize = 0;
        while i < self.mirrors.len()
            invariant
                i <= self.mirrors.len(),
                out@ == operational_records(*self, self.mirrors@.take(i as int)),
            decreases self.mirrors.len() - i,
        {
            assert(self.mirrors@.take(i + 1).drop_last() == self.mirrors@.take(i as int));
            let mirror: &MirrorRow = &self.mirrors[i];
            if mirror.managed {
                let current: Option<usize> = self.find_newest(mirror.name.as_str(), false);
                let last: Option<usize> = self.find_newest(mirror.name.as_str(), true);
                let schedule: Option<usize> = tables::find_schedule(&self.schedules, mirror.name.as_str());
                out.push(
                    MirrorOperationalRecord {
                        name: mirror.name.clone(),
                        owner_node: mirror.owner_node.clone(),
                        enabled: mirror.enabled,
                        current_run_state: match current {
                            Some(j) => Some(self.runs[j].record.state),
                            None => None,
                        },
                        current_run_created_at_ms: match current {
                            Some(j) => Some(self.runs[j].record.created_at_ms),
                            None => None,
                        },
                        last_run_state: match last {
                            Some(j) => Some(self.runs[j].record.state),
                            None => None,
                        },
                        last_terminal_at_ms: match last {
                            Some(j) => self.runs[j].record.finished_at_ms,
                            None => None,
                        },
                        last_success_at_ms: self.find_success(mirror.name.as_str()),
                        next_due_at_ms: match schedule {
                            Some(k) => self.schedules[k].runtime.next_due_at_ms,
                            None => None,
                        },
                        due_since_ms: match schedule {
                            Some(k) => self.schedules[k].runtime.catch_up_since_ms,
                            None => None,
                        },
                    },
                );
            }
            i = i + 1;
        }
        assert(self.mirrors@.take(self.mirrors@.len() as int) == self.mirrors@);
        ranked::ranked(out)
    }

    /// The credentials of a node, newest first.
    pub fn list_credentials(&self, node: &str) -> (r: Vec<CredentialRecord>)
        ensures
            in_rank(r@),
            r@.to_multiset() == credentials_of(self.credentials@, node@).to_multiset(),
    {
        let mut out: Vec<CredentialRecord> = Vec::new();
        let mut i: usize = 0;
        while i < self.credentials.len()
            invariant
                i <= self.credentials.len(),
                out@ == credentials_of(self.credentials@.take(i as int), node@),
            decreases self.credentials.len() - i,
        {
            assert(self.credentials@.take(i + 1).drop_last() == self.credentials@.take(i as int));
            if text::same(self.credentials[i].record.node.as_str(), node) {
                out.push(self.credentials[i].record.clone());
            }
            i = i + 1;
        }
        assert(self.credentials@.take(self.credentials@.len() as int) == self.credentials@);
        ranked::ranked(out)
    }

    /// How much there is to do, and how many bytes the logs hold that have not expired, as far as a
    /// count of 64 bits can tell.
    pub fn operational_counts(&self) -> (r: OperationalCounts)
        ensures
            are_counts(*self, r),
    {
        let mut pending: u64 = 0;
        let mut running: u64 = 0;
        let mut i: usize = 0;
        while i < self.runs.len()
            invariant
                i <= self.runs.len(),
                pending == count_runs(self.runs@.take(i as int), RunState::Pending),
                running == count_runs(self.runs@.take(i as int), RunState::Running),
                pending <= i,
                running <= i,
            decreases self.runs.len() - i,
        {
            assert(self.runs@.take(i + 1).drop_last() == self.runs@.take(i as int));
            if self.runs[i].record.state == RunState::Pending {
                pending = pending + 1;
            }
            if self.runs[i].record.state == RunState::Running {
                running = running + 1;
            }
            i = i + 1;
        }
        assert(self.runs@.take(self.runs@.len() as int) == self.runs@);
        let mut due: u64 = 0;
        let mut k: usize = 0;
        while k < self.schedules.len()
            invariant
                k <= self.schedules.len(),
                due == count_due(self.schedules@.take(k as int)),
                due <= k,
            decreases self.schedules.len() - k,
        {
            assert(self.schedules@.take(k + 1).drop_last() == self.schedules@.take(k as int));
            if self.schedules[k].runtime.catch_up_pending {
                due = due + 1;
            }
            k = k + 1;
        }
        assert(self.schedules@.take(self.schedules@.len() as int) == self.schedules@);
        let mut stored_log_bytes: u64 = 0;
        let mut l: usize = 0;
        while l < self.logs.len()
            invariant
                l <= self.logs.len(),
                stored_log_bytes == (if kept_bytes(self.logs@.take(l as int)) <= u64::MAX {
                    kept_bytes(self.logs@.take(l as int))
                } else {
                    u64::MAX as nat
                }),
            decreases self.logs.len() - l,
        {
            assert(self.logs@.take(l + 1).drop_last() == self.logs@.take(l as int));
            if self.logs[l].metadata.expired_at_ms.is_none() {
                stored_log_bytes = stored_log_bytes.saturating_add(self.logs[l].metadata.stored_bytes);
            }
            l = l + 1;
        }
        assert(self.logs@.take(self.logs@.len() as int) == self.logs@);
        OperationalCounts { pending_runs: pending, running_runs: running, due_mirrors: due, stored_log_bytes }
    }

    /// When the scheduler has something to do next: a schedule that is due or a retry.
    pub fn earliest_wakeup(&self) -> (r: Option<i64>)
        ensures
            is_wakeup(*self, r),
    {
        let mut due: Option<i64> = None;
        let mut k: usize = 0;
        while k < self.schedules.len()
            invariant
                k <= self.schedules.len(),
                due == earliest_due(self.schedules@.take(k as int)),
            decreases self.schedules.len() - k,
        {
            assert(self.schedules@.take(k + 1).drop_last() == self.schedules@.take(k as int));
            due = earlier_of(due, self.schedules[k].runtime.next_due_at_ms);
            k = k + 1;
        }
        assert(self.schedules@.take(self.schedules@.len() as int) == self.schedules@);
        let mut retry: Option<i64> = None;
        let mut i: usize = 0;
        while i < self.runs.len()
            invariant
                i <= self.runs.len(),
                retry == earliest_retry(self.runs@.take(i as int)),
            decreases self.runs.len() - i,
        {
            assert(self.runs@.take(i + 1).drop_last() == self.runs@.take(i as int));
            if self.runs[i].record.state == RunState::Running {
                retry = earlier_of(retry, self.runs[i].record.retry_due_at_ms);
            }
            i = i + 1;
        }
        assert(self.runs@.take(self.runs@.len() as int) == self.runs@);
        earlier_of(due, retry)
    }
}

/// A query without conditions wants every run.
proof fn lemma_all_wanted(rows: Seq<RunRow>, query: RunQuery)
    requires
        query.mirror is None,
        query.node is None,
        query.state is None,
        query.trigger is None,
    ensures
        runs_wanted(rows, query, None) == rows.map_values(|run: RunRow| run.record),
    decreases rows.len(),
{
    let all = rows.map_values(|run: RunRow| run.record);
    if rows.len() > 0 {
        lemma_all_wanted(rows.drop_last(), query);
        assert(all == rows.drop_last().map_values(|run: RunRow| run.record).push(rows.last().record));
    } else {
        assert(all == Seq::<RunRecord>::empty());
    }
}

/// The wanted runs are the wanted ones among the rows, each once.
proof fn lemma_runs_wanted(rows: Seq<RunRow>, query: RunQuery, cursor: Option<RunRecord>)
    requires
        wellformed::runs_unique(rows),
    ensures
        runs_wanted(rows, query, cursor).no_duplicates(),
        forall|x: RunRecord| #[trigger]
            runs_wanted(rows, query, cursor).contains(x) <==> run_wanted(x, query, cursor) && exists|i: int|
                0 <= i < rows.len() && (#[trigger] rows[i]).record == x,
    decreases rows.len(),
{
    let all = runs_wanted(rows, query, cursor);
    if rows.len() > 0 {
        let shorter = rows.drop_last();
        let before = runs_wanted(shorter, query, cursor);
        assert forall|i: int, j: int| 0 <= i < j < shorter.len() implies (#[trigger] shorter[i]).record.id@ != (
        #[trigger] shorter[j]).record.id@ by {
            assert(rows[i].record.id@ != rows[j].record.id@);
        }
        lemma_runs_wanted(shorter, query, cursor);
        assert forall|x: RunRecord| #[trigger] all.contains(x) <==> run_wanted(x, query, cursor) && exists|i: int|
            0 <= i < rows.len() && (#[trigger] rows[i]).record == x by {
            let last = rows.last().record;
            assert(before.contains(x) <==> run_wanted(x, query, cursor) && exists|i: int|
                0 <= i < shorter.len() && (#[trigger] shorter[i]).record == x);
            if all.contains(x) {
                let p = choose|p: int| 0 <= p < all.len() && all[p] == x;
                if p < before.len() {
                    assert(before[p] == x);
                    assert(before.contains(x));
                    let i = choose|i: int| 0 <= i < shorter.len() && (#[trigger] shorter[i]).record == x;
                    assert(rows[i].record == x);
                } else {
                    assert(rows[rows.len() - 1].record == x);
                }
            }
            if run_wanted(x, query, cursor) && exists|i: int| 0 <= i < rows.len() && (#[trigger] rows[i]).record == x {
                let i = choose|i: int| 0 <= i < rows.len() && (#[trigger] rows[i]).record == x;
                if i < shorter.len() {
                    assert(shorter[i].record == x);
                    assert(before.contains(x));
                    let p = choose|p: int| 0 <= p < before.len() && before[p] == x;
                    assert(all[p] == x);
                } else {
                    assert(all[all.len() - 1] == x);
                }
            }
        }
        if run_wanted(rows.last().record, query, cursor) {
            assert forall|p: int| 0 <= p < before.len() implies before[p] != rows.last().record by {
                assert(before.contains(before[p]));
                let i = choose|i: int| 0 <= i < shorter.len() && (#[trigger] shorter[i]).record == before[p];
                assert(rows[i].record.id@ != rows[rows.len() - 1].record.id@);
            }
        }
    }
}

/// Pages follow each other without gaps and without repeats: of the runs that are wanted, each is
/// either on a page or wanted after the last run of that page, and never both.
pub proof fn law_pages_follow_each_other(
    rows: Seq<RunRow>,
    query: RunQuery,
    cursor: Option<RunRecord>,
    page: Seq<RunRecord>,
    limit: int,
    run: RunRecord,
)
    requires
        wellformed::runs_unique(rows),
        limit > 0,
        is_page(page, runs_wanted(rows, query, cursor), limit),
        page.len() > 0,
        runs_wanted(rows, query, cursor).contains(run),
    ensures
        page.contains(run) <==> !runs_wanted(rows, query, Some(page.last())).contains(run),
{
    let wanted = runs_wanted(rows, query, cursor);
    let full = choose|full: Seq<RunRecord>|
        #[trigger] is_listing(full, wanted) && page == full.take(
            if full.len() < limit {
                full.len() as int
            } else {
                limit
            },
        );
    lemma_runs_wanted(rows, query, cursor);
    lemma_runs_wanted(rows, query, Some(page.last()));
    ranked::lemma_same_values(wanted, full);
    let n = page.len() as int;
    let c = full[n - 1];
    assert(page.last() == c);
    assert(wanted.contains(run));
    assert(full.contains(run));
    let p = choose|p: int| 0 <= p < full.len() && full[p] == run;
    if p < n {
        assert(page[p] == run);
        if p < n - 1 {
            assert(!full[n - 1].precedes(&full[p]));
        }
        text::lemma_lex_less_total(run.id@, run.id@);
        assert(!newer(c, run));
    } else {
        assert(!full[p].precedes(&full[n - 1]));
        assert(!newer(run, c));
        assert(full.contains(c));
        assert(wanted.contains(c));
        let i = choose|i: int| 0 <= i < rows.len() && (#[trigger] rows[i]).record == run;
        let j = choose|j: int| 0 <= j < rows.len() && (#[trigger] rows[j]).record == c;
        assert(run != c);
        if i < j {
            assert(rows[i].record.id@ != rows[j].record.id@);
        } else {
            assert(rows[j].record.id@ != rows[i].record.id@);
        }
        text::lemma_lex_less_total(run.id@, c.id@);
        assert(newer(c, run));
        if page.contains(run) {
            let q = choose|q: int| 0 <= q < page.len() && page[q] == run;
            assert(full[q] == run);
        }
    }
}

/// Which runs are wanted does not depend on where a query begins and ends.
proof fn lemma_same_filters(rows: Seq<RunRow>, a: RunQuery, b: RunQuery, cursor: Option<RunRecord>)
    requires
        same_filters(a, b),
    ensures
        runs_wanted(rows, a, cursor) == runs_wanted(rows, b, cursor),
    decreases rows.len(),
{
    if rows.len() > 0 {
        lemma_same_filters(rows.drop_last(), a, b, cursor);
    }
}

/// Two lists of the same values, each without repeats, hold them equally often.
proof fn lemma_same_listing(a: Seq<RunRecord>, b: Seq<RunRecord>)
    requires
        a.no_duplicates(),
        b.no_duplicates(),
        forall|x: RunRecord| #[trigger] a.contains(x) <==> b.contains(x),
    ensures
        a.to_multiset() == b.to_multiset(),
{
    a.to_multiset_ensures();
    b.to_multiset_ensures();
    a.lemma_multiset_has_no_duplicates();
    b.lemma_multiset_has_no_duplicates();
    assert forall|x: RunRecord| a.to_multiset().count(x) == b.to_multiset().count(x) by {
        assert(a.contains(x) <==> b.contains(x));
        assert(a.contains(x) <==> a.to_multiset().count(x) > 0);
        assert(b.contains(x) <==> b.to_multiset().count(x) > 0);
    }
    assert(a.to_multiset() =~= b.to_multiset());
}

/// A page with a listing of what is wanted after it is a listing of what is wanted.
proof fn lemma_page_and_rest(
    rows: Seq<RunRow>,
    query: RunQuery,
    cursor: Option<RunRecord>,
    limit: int,
    page: Seq<RunRecord>,
    rest: Seq<RunRecord>,
)
    requires
        wellformed::runs_unique(rows),
        limit > 0,
        page.len() > 0,
        is_page(page, runs_wanted(rows, query, cursor), limit),
        is_listing(rest, runs_wanted(rows, query, Some(page.last()))),
    ensures
        is_listing(page + rest, runs_wanted(rows, query, cursor)),
{
    let wanted = runs_wanted(rows, query, cursor);
    let after = runs_wanted(rows, query, Some(page.last()));
    let all = page + rest;
    let last = page.last();
    let full = choose|full: Seq<RunRecord>|
        #[trigger] is_listing(full, wanted) && page == full.take(
            if full.len() < limit {
                full.len() as int
            } else {
                limit
            },
        );
    lemma_runs_wanted(rows, query, cursor);
    lemma_runs_wanted(rows, query, Some(last));
    ranked::lemma_same_values(wanted, full);
    ranked::lemma_same_values(after, rest);
    assert forall|x: RunRecord| #[trigger] page.contains(x) implies wanted.contains(x) by {
        let p = choose|p: int| 0 <= p < page.len() && page[p] == x;
        assert(full[p] == x);
        assert(full.contains(x));
    }
    assert(page.contains(last)) by {
        assert(page[page.len() - 1] == last);
    }
    assert forall|x: RunRecord| #[trigger] after.contains(x) implies wanted.contains(x) by {
        if cursor is Some {
            RunRecord::lemma_order(&cursor->0, &last, &x);
        }
    }
    assert forall|i: int, j: int|
        #![trigger all[i], all[j]]
        0 <= i < j < all.len() implies !all[j].precedes(&all[i]) by {
        if j < page.len() {
            assert(!full[j].precedes(&full[i]));
        } else if i >= page.len() {
            assert(!rest[j - page.len()].precedes(&rest[i - page.len()]));
        } else {
            let y = rest[j - page.len()];
            let x = page[i];
            assert(rest.contains(y));
            assert(after.contains(y));
            assert(last.precedes(&y));
            RunRecord::lemma_order(&last, &y, &x);
            RunRecord::lemma_order(&last, &last, &last);
            if i < page.len() - 1 {
                assert(!full[page.len() - 1].precedes(&full[i]));
            }
        }
    }
    assert forall|x: RunRecord| #[trigger] all.contains(x) <==> page.contains(x) || rest.contains(x) by {
        if all.contains(x) {
            let p = choose|p: int| 0 <= p < all.len() && all[p] == x;
            if p < page.len() {
                assert(page[p] == x);
            } else {
                assert(rest[p - page.len()] == x);
            }
        }
        if page.contains(x) {
            let p = choose|p: int| 0 <= p < page.len() && page[p] == x;
            assert(all[p] == x);
        }
        if rest.contains(x) {
            let p = choose|p: int| 0 <= p < rest.len() && rest[p] == x;
            assert(all[page.len() + p] == x);
        }
    }
    assert forall|x: RunRecord| #[trigger] all.contains(x) <==> wanted.contains(x) by {
        assert(rest.contains(x) <==> after.contains(x));
        if wanted.contains(x) {
            law_pages_follow_each_other(rows, query, cursor, page, limit, x);
        }
    }
    assert forall|i: int, j: int| 0 <= i < all.len() && 0 <= j < all.len() && i != j implies all[i] != all[j] by {
        if i < page.len() && j < page.len() {
            assert(full[i] != full[j]);
        } else if i >= page.len() && j >= page.len() {
            assert(rest[i - page.len()] != rest[j - page.len()]);
        } else {
            let p = if i < page.len() { i } else { j };
            let q = if i < page.len() { j } else { i };
            assert(page.contains(page[p]));
            assert(rest.contains(rest[q - page.len()]));
            assert(after.contains(rest[q - page.len()]));
            law_pages_follow_each_other(rows, query, cursor, page, limit, page[p]);
        }
    }
    lemma_same_listing(all, wanted);
}

/// Pages that were read in turn list what is wanted from where the first begins.
proof fn lemma_read_in_turn(rows: Seq<RunRow>, queries: Seq<RunQuery>, pages: Seq<Seq<RunRecord>>)
    requires
        wellformed::runs_unique(rows),
        read_in_turn(rows, queries, pages),
    ensures
        is_listing(pages.flatten(), runs_wanted(rows, queries[0], cursor_of(rows, queries[0]))),
    decreases pages.len(),
{
    let query = queries[0];
    let page = pages[0];
    let cursor = cursor_of(rows, query);
    let wanted = runs_wanted(rows, query, cursor);
    let rest = pages.drop_first();
    assert(answers(rows, queries[0], pages[0]));
    let full = choose|full: Seq<RunRecord>|
        #[trigger] is_listing(full, wanted) && page == full.take(
            if full.len() < query.limit as int {
                full.len() as int
            } else {
                query.limit as int
            },
        );
    if page.len() == 0 {
        assert(full.len() == 0);
        assert(full == page);
        if pages.len() > 1 {
            assert(queries[1].before is Some);
        }
        assert(rest.len() == 0);
        assert(pages.flatten() == page + rest.flatten());
        assert(rest.flatten() == Seq::<RunRecord>::empty());
        assert(pages.flatten() == full);
    } else {
        let later = queries.drop_first();
        let next = queries[1];
        assert(pages.len() > 1);
        assert(answers(rows, queries[1], pages[1]));
        assert(read_in_turn(rows, later, rest)) by {
            assert(rest.last() == pages.last());
            assert forall|k: int| 0 <= k < rest.len() implies #[trigger] answers(rows, later[k], rest[k])
                && later[k].limit > 0 && same_filters(later[k], later[0]) by {
                assert(answers(rows, queries[k + 1], pages[k + 1]));
            }
            assert forall|k: int| 0 < k < rest.len() implies rest[k - 1].len() > 0 && (#[trigger] later[k]).before
                is Some && later[k].before->0@ == rest[k - 1].last().id@ by {
                assert(queries[k + 1].before is Some);
            }
        }
        lemma_read_in_turn(rows, later, rest);
        let last = page.last();
        lemma_runs_wanted(rows, query, cursor);
        ranked::lemma_same_values(wanted, full);
        assert(full[page.len() - 1] == last);
        assert(full.contains(last));
        assert(wanted.contains(last));
        let i = choose|i: int| 0 <= i < rows.len() && (#[trigger] rows[i]).record == last;
        tables::lemma_run_index(rows, last.id@);
        let found = tables::run_index(rows, last.id@)->0;
        if found < i {
            assert(rows[found].record.id@ != rows[i].record.id@);
        } else if i < found {
            assert(rows[i].record.id@ != rows[found].record.id@);
        }
        assert(cursor_of(rows, next) == Some(last));
        lemma_same_filters(rows, next, query, Some(last));
        lemma_page_and_rest(rows, query, cursor, query.limit as int, page, rest.flatten());
        assert(pages.flatten() == page + rest.flatten());
    }
}

/// Pages that are read in turn from the newest run on list every wanted run once, newest first, as
/// one page without a limit does.
pub proof fn law_pages_list_every_run_once(rows: Seq<RunRow>, queries: Seq<RunQuery>, pages: Seq<Seq<RunRecord>>)
    requires
        wellformed::runs_unique(rows),
        read_in_turn(rows, queries, pages),
        queries[0].before is None,
    ensures
        is_listing(pages.flatten(), runs_wanted(rows, queries[0], None)),
        pages.flatten().no_duplicates(),
{
    lemma_read_in_turn(rows, queries, pages);
    lemma_runs_wanted(rows, queries[0], None);
    ranked::lemma_same_values(runs_wanted(rows, queries[0], None), pages.flatten());
}

/// A page holds runs of the table that match every filter that the query sets, that are older than the
/// run it names as the last one known, and no more of them than the query allows.
pub proof fn law_pages_keep_to_their_filters(rows: Seq<RunRow>, query: RunQuery, page: Seq<RunRecord>, k: int)
    requires
        wellformed::runs_unique(rows),
        answers(rows, query, page),
        0 <= k < page.len(),
    ensures
        exists|i: int| 0 <= i < rows.len() && (#[trigger] rows[i]).record == page[k],
        query.mirror is Some ==> page[k].mirror_name@ == query.mirror->0@,
        query.node is Some ==> page[k].owner_node@ == query.node->0@,
        query.state is Some ==> page[k].state == query.state->0,
        query.trigger is Some ==> page[k].trigger == query.trigger->0,
        query.limit > 0 ==> page.len() <= query.limit,
        query.before is Some ==> forall|i: int|
            0 <= i < rows.len() && (#[trigger] rows[i]).record.id@ == query.before->0@ ==> page[k].created_at_ms
                < rows[i].record.created_at_ms || (page[k].created_at_ms == rows[i].record.created_at_ms
                && text::lex_less(page[k].id@, rows[i].record.id@)),
{
    let cursor = cursor_of(rows, query);
    let wanted = runs_wanted(rows, query, cursor);
    let full = choose|full: Seq<RunRecord>|
        #[trigger] is_listing(full, wanted) && page == full.take(
            if full.len() < query.limit as int {
                full.len() as int
            } else {
                query.limit as int
            },
        );
    lemma_runs_wanted(rows, query, cursor);
    ranked::lemma_same_values(wanted, full);
    assert(full[k] == page[k]);
    assert(full.contains(page[k]));
    assert(wanted.contains(page[k]));
    assert(run_wanted(page[k], query, cursor));
    if query.before is Some {
        assert forall|i: int| 0 <= i < rows.len() && (#[trigger] rows[i]).record.id@ == query.before->0@ implies page[k].created_at_ms
            < rows[i].record.created_at_ms || (page[k].created_at_ms == rows[i].record.created_at_ms && text::lex_less(
            page[k].id@,
            rows[i].record.id@,
        )) by {
            lookup::lemma_own_run(rows, i);
        }
    }
}

/// A page lists its runs newest first, those of one moment by falling identifier.
pub proof fn law_pages_are_newest_first(rows: Seq<RunRow>, query: RunQuery, page: Seq<RunRecord>, i: int, j: int)
    requires
        wellformed::runs_unique(rows),
        answers(rows, query, page),
        0 <= i < j < page.len(),
    ensures
        page[i].created_at_ms >= page[j].created_at_ms,
        page[i].created_at_ms == page[j].created_at_ms ==> text::lex_less(page[j].id@, page[i].id@),
{
    let cursor = cursor_of(rows, query);
    let wanted = runs_wanted(rows, query, cursor);
    let full = choose|full: Seq<RunRecord>|
        #[trigger] is_listing(full, wanted) && page == full.take(
            if full.len() < query.limit as int {
                full.len() as int
            } else {
                query.limit as int
            },
        );
    lemma_runs_wanted(rows, query, cursor);
    ranked::lemma_same_values(wanted, full);
    assert(full[i] == page[i] && full[j] == page[j]);
    assert(!full[j].precedes(&full[i]));
    assert(full.contains(page[i]) && full.contains(page[j]));
    assert(wanted.contains(page[i]) && wanted.contains(page[j]));
    let a = choose|a: int| 0 <= a < rows.len() && (#[trigger] rows[a]).record == page[i];
    let b = choose|b: int| 0 <= b < rows.len() && (#[trigger] rows[b]).record == page[j];
    if a < b {
        assert(rows[a].record.id@ != rows[b].record.id@);
    } else if b < a {
        assert(rows[b].record.id@ != rows[a].record.id@);
    }
    text::lemma_lex_less_total(page[i].id@, page[j].id@);
}

/// Every run of the table that matches the filters is on one of the pages that are read in turn, and on
/// the first page where it has room for all.
pub proof fn law_every_matching_run_is_on_a_page(
    rows: Seq<RunRow>,
    queries: Seq<RunQuery>,
    pages: Seq<Seq<RunRecord>>,
    i: int,
)
    requires
        wellformed::runs_unique(rows),
        read_in_turn(rows, queries, pages),
        queries[0].before is None,
        0 <= i < rows.len(),
        queries[0].mirror is Some ==> rows[i].record.mirror_name@ == queries[0].mirror->0@,
        queries[0].node is Some ==> rows[i].record.owner_node@ == queries[0].node->0@,
        queries[0].state is Some ==> rows[i].record.state == queries[0].state->0,
        queries[0].trigger is Some ==> rows[i].record.trigger == queries[0].trigger->0,
    ensures
        pages.flatten().contains(rows[i].record),
        rows.len() <= queries[0].limit ==> pages[0].contains(rows[i].record),
{
    let wanted = runs_wanted(rows, queries[0], None);
    law_pages_list_every_run_once(rows, queries, pages);
    lemma_runs_wanted(rows, queries[0], None);
    assert(run_wanted(rows[i].record, queries[0], None));
    assert(wanted.contains(rows[i].record));
    ranked::lemma_same_values(wanted, pages.flatten());
    if rows.len() <= queries[0].limit {
        assert(answers(rows, queries[0], pages[0]));
        let limit = queries[0].limit as int;
        let full = choose|full: Seq<RunRecord>|
            #[trigger] is_listing(full, wanted) && pages[0] == full.take(
                if full.len() < limit {
                    full.len() as int
                } else {
                    limit
                },
            );
        ranked::lemma_same_values(wanted, full);
        lemma_wanted_length(rows, queries[0], None);
        assert(full.len() <= limit);
        assert(pages[0] == full);
    }
}

/// No more runs are wanted than there are.
proof fn lemma_wanted_length(rows: Seq<RunRow>, query: RunQuery, cursor: Option<RunRecord>)
    ensures
        runs_wanted(rows, query, cursor).len() <= rows.len(),
    decreases rows.len(),
{
    if rows.len() > 0 {
        lemma_wanted_length(rows.drop_last(), query, cursor);
    }
}

/// The run that a mirror is shown with is one of its own, ended or not as was asked, and no other such
/// run is newer; where none is shown, there is none.
pub proof fn law_mirrors_are_shown_with_their_newest_run(rows: Seq<RunRow>, mirror: Seq<char>, ended: bool, i: int)
    requires
        0 <= i < rows.len(),
        rows[i].record.mirror_name@ == mirror,
        ended <==> rows[i].record.state != RunState::Pending && rows[i].record.state != RunState::Running,
    ensures
        newest_run(rows, mirror, ended) is Some,
        newest_run(rows, mirror, ended)->0.mirror_name@ == mirror,
        ended <==> newest_run(rows, mirror, ended)->0.state != RunState::Pending && newest_run(
            rows,
            mirror,
            ended,
        )->0.state != RunState::Running,
        newest_run(rows, mirror, ended)->0.created_at_ms >= rows[i].record.created_at_ms,
        newest_run(rows, mirror, ended)->0.created_at_ms == rows[i].record.created_at_ms ==> !text::lex_less(
            newest_run(rows, mirror, ended)->0.id@,
            rows[i].record.id@,
        ),
    decreases rows.len(),
{
    let shorter = rows.drop_last();
    let last = rows.last().record;
    lemma_newest_run_is_one(shorter, mirror, ended);
    if i < shorter.len() {
        assert(shorter[i] == rows[i]);
        law_mirrors_are_shown_with_their_newest_run(shorter, mirror, ended, i);
        let before = newest_run(shorter, mirror, ended)->0;
        text::lemma_lex_less_total(before.id@, rows[i].record.id@);
        text::lemma_lex_less_total(last.id@, rows[i].record.id@);
        text::lemma_lex_less_total(before.id@, last.id@);
        if text::lex_less(before.id@, last.id@) && text::lex_less(last.id@, rows[i].record.id@) {
            text::lemma_lex_less_transitive(before.id@, last.id@, rows[i].record.id@);
        }
    } else {
        text::lemma_lex_less_total(last.id@, last.id@);
    }
}

/// The newest run is one of the mirror's own.
proof fn lemma_newest_run_is_one(rows: Seq<RunRow>, mirror: Seq<char>, ended: bool)
    ensures
        newest_run(rows, mirror, ended) is Some ==> newest_run(rows, mirror, ended)->0.mirror_name@ == mirror
            && newest_run(rows, mirror, ended)->0.state.terminal() == ended,
    decreases rows.len(),
{
    if rows.len() > 0 {
        lemma_newest_run_is_one(rows.drop_last(), mirror, ended);
    }
}

/// A mirror without such a run is shown without one.
pub proof fn law_mirrors_without_runs_are_shown_without_one(rows: Seq<RunRow>, mirror: Seq<char>, ended: bool)
    requires
        forall|i: int|
            0 <= i < rows.len() && (#[trigger] rows[i]).record.mirror_name@ == mirror ==> ended == (
            rows[i].record.state == RunState::Pending || rows[i].record.state == RunState::Running),
    ensures
        newest_run(rows, mirror, ended) is None,
    decreases rows.len(),
{
    if rows.len() > 0 {
        let shorter = rows.drop_last();
        assert forall|i: int| 0 <= i < shorter.len() && (#[trigger] shorter[i]).record.mirror_name@ == mirror implies ended
            == (shorter[i].record.state == RunState::Pending || shorter[i].record.state == RunState::Running) by {
            assert(shorter[i] == rows[i]);
        }
        law_mirrors_without_runs_are_shown_without_one(shorter, mirror, ended);
        assert(rows[rows.len() - 1] == rows.last());
    }
}

/// The latest success of a mirror is no earlier than the end of any of its runs that succeeded.
pub proof fn law_latest_success_is_the_latest(rows: Seq<RunRow>, mirror: Seq<char>, i: int)
    requires
        0 <= i < rows.len(),
        rows[i].record.mirror_name@ == mirror,
        rows[i].record.state == RunState::Succeeded,
        rows[i].record.finished_at_ms is Some,
    ensures
        latest_success(rows, mirror) is Some,
        latest_success(rows, mirror)->0 >= rows[i].record.finished_at_ms->0,
    decreases rows.len(),
{
    let shorter = rows.drop_last();
    if i < shorter.len() {
        assert(shorter[i] == rows[i]);
        law_latest_success_is_the_latest(shorter, mirror, i);
    }
}

/// The latest success of a mirror is the end of one of its runs that succeeded.
pub proof fn law_latest_success_is_a_success(rows: Seq<RunRow>, mirror: Seq<char>)
    requires
        latest_success(rows, mirror) is Some,
    ensures
        exists|i: int|
            0 <= i < rows.len() && (#[trigger] rows[i]).record.mirror_name@ == mirror && rows[i].record.state
                == RunState::Succeeded && rows[i].record.finished_at_ms == latest_success(rows, mirror),
    decreases rows.len(),
{
    let shorter = rows.drop_last();
    let last = rows.len() - 1;
    if latest_success(rows, mirror) != latest_success(shorter, mirror) {
        assert(rows[last].record.mirror_name@ == mirror);
        assert(rows[last].record.finished_at_ms == latest_success(rows, mirror));
    } else {
        law_latest_success_is_a_success(shorter, mirror);
        let i = choose|i: int|
            0 <= i < shorter.len() && (#[trigger] shorter[i]).record.mirror_name@ == mirror && shorter[i].record.state
                == RunState::Succeeded && shorter[i].record.finished_at_ms == latest_success(shorter, mirror);
        assert(rows[i] == shorter[i]);
    }
}

/// A managed mirror is shown with its node and state, its current and its last run, its latest success
/// and what its schedule has come to.
pub proof fn law_mirrors_are_shown_as_they_stand(s: Store, mirror: MirrorRow, k: int)
    requires
        s.wf(),
        0 <= k < s.schedules@.len(),
        s.schedules@[k].mirror_name@ == mirror.name@,
    ensures
        ({
            let shown = operational_record(s, mirror);
            let current = newest_run(s.runs@, mirror.name@, false);
            let last = newest_run(s.runs@, mirror.name@, true);
            &&& shown.name == mirror.name
            &&& shown.owner_node == mirror.owner_node
            &&& shown.enabled == mirror.enabled
            &&& shown.current_run_state is Some <==> current is Some
            &&& current is Some ==> shown.current_run_state == Some(current->0.state) && shown.current_run_created_at_ms
                == Some(current->0.created_at_ms)
            &&& shown.last_run_state is Some <==> last is Some
            &&& last is Some ==> shown.last_run_state == Some(last->0.state) && shown.last_terminal_at_ms
                == last->0.finished_at_ms
            &&& shown.last_success_at_ms == latest_success(s.runs@, mirror.name@)
            &&& shown.next_due_at_ms == s.schedules@[k].runtime.next_due_at_ms
            &&& shown.due_since_ms == s.schedules@[k].runtime.catch_up_since_ms
        }),
{
    lookup::lemma_own_schedule(s.schedules@, k);
}

/// A mirror is listed with its row, and with when it is next due and since when it waits; a mirror
/// whose schedule does not wait is listed as waiting since never.
pub proof fn law_listed_mirrors_are_as_their_rows(mirror: MirrorRow, row: Option<ScheduleRow>)
    ensures
        ({
            let listed = mirror_record(mirror, row);
            &&& listed.name == mirror.name
            &&& listed.managed == mirror.managed
            &&& listed.enabled == mirror.enabled
            &&& listed.owner_node == mirror.owner_node
            &&& listed.current_generation == mirror.current_generation
            &&& row is None ==> listed.next_due_at_ms is None && listed.scheduled_due_since_ms is None
            &&& row is Some ==> listed.next_due_at_ms == row->0.runtime.next_due_at_ms
            &&& row is Some && row->0.runtime.catch_up_pending ==> listed.scheduled_due_since_ms
                == row->0.runtime.catch_up_since_ms
            &&& row is Some && !row->0.runtime.catch_up_pending ==> listed.scheduled_due_since_ms is None
        }),
{
}

/// Runs, waiting schedules and kept bytes are counted row by row.
pub proof fn law_counts_add_up(
    runs: Seq<RunRow>,
    more_runs: Seq<RunRow>,
    schedules: Seq<ScheduleRow>,
    more_schedules: Seq<ScheduleRow>,
    logs: Seq<LogRow>,
    more_logs: Seq<LogRow>,
    state: RunState,
)
    ensures
        count_runs(runs + more_runs, state) == count_runs(runs, state) + count_runs(more_runs, state),
        count_due(schedules + more_schedules) == count_due(schedules) + count_due(more_schedules),
        kept_bytes(logs + more_logs) == kept_bytes(logs) + kept_bytes(more_logs),
    decreases more_runs.len() + more_schedules.len() + more_logs.len(),
{
    if more_runs.len() > 0 {
        law_counts_add_up(runs, more_runs.drop_last(), schedules, more_schedules, logs, more_logs, state);
        assert((runs + more_runs).drop_last() =~= runs + more_runs.drop_last());
    } else if more_schedules.len() > 0 {
        law_counts_add_up(runs, more_runs, schedules, more_schedules.drop_last(), logs, more_logs, state);
        assert((schedules + more_schedules).drop_last() =~= schedules + more_schedules.drop_last());
    } else if more_logs.len() > 0 {
        law_counts_add_up(runs, more_runs, schedules, more_schedules, logs, more_logs.drop_last(), state);
        assert((logs + more_logs).drop_last() =~= logs + more_logs.drop_last());
    } else {
        assert(runs + more_runs =~= runs);
        assert(schedules + more_schedules =~= schedules);
        assert(logs + more_logs =~= logs);
    }
}

/// One run counts for its state, one schedule where a run waits for it, and one log with all that it holds
/// unless it was let go.
pub proof fn law_each_row_counts_once(run: RunRow, schedule: ScheduleRow, log: LogRow, state: RunState)
    ensures
        count_runs(seq![run], state) == (if run.record.state == state { 1nat } else { 0nat }),
        count_due(seq![schedule]) == (if schedule.runtime.catch_up_pending { 1nat } else { 0nat }),
        log.metadata.expired_at_ms is None ==> kept_bytes(seq![log]) == log.metadata.stored_bytes,
        log.metadata.expired_at_ms is Some ==> kept_bytes(seq![log]) == 0,
{
    reveal_with_fuel(count_runs, 2);
    reveal_with_fuel(count_due, 2);
    reveal_with_fuel(kept_bytes, 2);
    assert(seq![run].drop_last() =~= Seq::empty());
    assert(seq![schedule].drop_last() =~= Seq::empty());
    assert(seq![log].drop_last() =~= Seq::empty());
}

/// The operator is told how many runs wait and run, how many mirrors are due and how much is kept.
pub proof fn law_operators_are_told_the_counts(s: Store, r: OperationalCounts)
    requires
        are_counts(s, r),
    ensures
        r.pending_runs == count_runs(s.runs@, RunState::Pending),
        r.running_runs == count_runs(s.runs@, RunState::Running),
        r.due_mirrors == count_due(s.schedules@),
        kept_bytes(s.logs@) <= u64::MAX ==> r.stored_log_bytes == kept_bytes(s.logs@),
{
}

proof fn lemma_earliest_due(rows: Seq<ScheduleRow>)
    ensures
        match earliest_due(rows) {
            None => forall|k: int| 0 <= k < rows.len() ==> (#[trigger] rows[k]).runtime.next_due_at_ms is None,
            Some(at) => (exists|k: int| 0 <= k < rows.len() && (#[trigger] rows[k]).runtime.next_due_at_ms == Some(at))
                && forall|k: int|
                0 <= k < rows.len() && (#[trigger] rows[k]).runtime.next_due_at_ms is Some
                    ==> at <= rows[k].runtime.next_due_at_ms->0,
        },
    decreases rows.len(),
{
    if rows.len() > 0 {
        let rest = rows.drop_last();
        lemma_earliest_due(rest);
        assert forall|k: int| 0 <= k < rows.len() - 1 implies #[trigger] rows[k] == rest[k] by {}
        assert(rows[rows.len() - 1] == rows.last());
        if earliest_due(rest) is Some {
            let k = choose|k: int|
                0 <= k < rest.len() && (#[trigger] rest[k]).runtime.next_due_at_ms == earliest_due(rest);
            assert(rows[k].runtime.next_due_at_ms == earliest_due(rest));
        }
    }
}

proof fn lemma_earliest_retry(rows: Seq<RunRow>)
    ensures
        match earliest_retry(rows) {
            None => forall|k: int|
                0 <= k < rows.len() && (#[trigger] rows[k]).record.state == RunState::Running
                    ==> rows[k].record.retry_due_at_ms is None,
            Some(at) => (exists|k: int|
                0 <= k < rows.len() && (#[trigger] rows[k]).record.state == RunState::Running && rows[k].record.retry_due_at_ms
                    == Some(at)) && forall|k: int|
                0 <= k < rows.len() && (#[trigger] rows[k]).record.state == RunState::Running
                    && rows[k].record.retry_due_at_ms is Some ==> at <= rows[k].record.retry_due_at_ms->0,
        },
    decreases rows.len(),
{
    if rows.len() > 0 {
        let rest = rows.drop_last();
        lemma_earliest_retry(rest);
        assert forall|k: int| 0 <= k < rows.len() - 1 implies #[trigger] rows[k] == rest[k] by {}
        assert(rows[rows.len() - 1] == rows.last());
        if earliest_retry(rest) is Some {
            let k = choose|k: int|
                0 <= k < rest.len() && (#[trigger] rest[k]).record.state == RunState::Running && rest[k].record.retry_due_at_ms
                    == earliest_retry(rest);
            assert(rows[k].record.retry_due_at_ms == earliest_retry(rest));
        }
    }
}

/// There is something to do next at the earliest moment of a schedule or of a retry of a run that goes on: no
/// such moment comes before it, it is one of them, and it is none where there is none.
pub proof fn law_wakeups_are_the_earliest(s: Store, r: Option<i64>)
    requires
        is_wakeup(s, r),
    ensures
        forall|k: int|
            0 <= k < s.schedules@.len() && (#[trigger] s.schedules@[k]).runtime.next_due_at_ms is Some ==> r is Some && r->0
                <= s.schedules@[k].runtime.next_due_at_ms->0,
        forall|j: int|
            0 <= j < s.runs@.len() && (#[trigger] s.runs@[j]).record.state == RunState::Running
                && s.runs@[j].record.retry_due_at_ms is Some ==> r is Some && r->0 <= s.runs@[j].record.retry_due_at_ms->0,
        r is Some ==> (exists|k: int|
            0 <= k < s.schedules@.len() && (#[trigger] s.schedules@[k]).runtime.next_due_at_ms == r) || (exists|j: int|
            0 <= j < s.runs@.len() && (#[trigger] s.runs@[j]).record.state == RunState::Running
                && s.runs@[j].record.retry_due_at_ms == r),
{
    lemma_earliest_due(s.schedules@);
    lemma_earliest_retry(s.runs@);
}

/// The attempts of a run are those that name it, and the credentials of a node those that are for it.
pub proof fn law_rows_are_listed_by_whom_they_are_of(
    attempts: Seq<AttemptRow>,
    run_id: Seq<char>,
    attempt: AttemptRow,
    credentials: Seq<CredentialRow>,
    node: Seq<char>,
    credential: CredentialRow,
)
    ensures
        attempt.record.run_id@ == run_id ==> attempts_of(attempts.push(attempt), run_id) == attempts_of(attempts, run_id).push(
            attempt.record,
        ),
        attempt.record.run_id@ != run_id ==> attempts_of(attempts.push(attempt), run_id) == attempts_of(attempts, run_id),
        credential.record.node@ == node ==> credentials_of(credentials.push(credential), node) == credentials_of(
            credentials,
            node,
        ).push(credential.record),
        credential.record.node@ != node ==> credentials_of(credentials.push(credential), node) == credentials_of(
            credentials,
            node,
        ),
        attempts_of(Seq::empty(), run_id).len() == 0,
        credentials_of(Seq::empty(), node).len() == 0,
{
    assert(attempts.push(attempt).drop_last() =~= attempts);
    assert(credentials.push(credential).drop_last() =~= credentials);
}

/// Lists are in order: attempts by their number, nodes and mirrors by their name, credentials and runs the newest first.
pub proof fn law_lists_are_in_order(
    attempt: AttemptRecord,
    later: AttemptRecord,
    node: NodeRecord,
    other_node: NodeRecord,
    mirror: MirrorRecord,
    other_mirror: MirrorRecord,
    status: MirrorOperationalRecord,
    other_status: MirrorOperationalRecord,
    credential: CredentialRecord,
    other_credential: CredentialRecord,
)
    ensures
        attempt.attempt_no < later.attempt_no ==> attempt.precedes(&later) && !later.precedes(&attempt),
        text::lex_less(node.name@, other_node.name@) ==> node.precedes(&other_node) && !other_node.precedes(&node),
        text::lex_less(mirror.name@, other_mirror.name@) ==> mirror.precedes(&other_mirror) && !other_mirror.precedes(&mirror),
        text::lex_less(status.name@, other_status.name@) ==> status.precedes(&other_status) && !other_status.precedes(&status),
        credential.created_at_ms > other_credential.created_at_ms ==> credential.precedes(&other_credential)
            && !other_credential.precedes(&credential),
        credential.created_at_ms == other_credential.created_at_ms && text::lex_less(other_credential.id@, credential.id@)
            ==> credential.precedes(&other_credential) && !other_credential.precedes(&credential),
{
    text::lemma_lex_less_total(node.name@, other_node.name@);
    text::lemma_lex_less_total(mirror.name@, other_mirror.name@);
    text::lemma_lex_less_total(status.name@, other_status.name@);
    text::lemma_lex_less_total(credential.id@, other_credential.id@);
}

/// A run and a mirror are found by their own name and by no other; an attempt belongs to the node that its run belongs
/// to.
pub proof fn law_rows_are_found_by_name(
    s: Store,
    id: Seq<char>,
    found: Option<RunRecord>,
    name: Seq<char>,
    mirror: Option<MirrorRecord>,
    attempt_no: u32,
    node: Seq<char>,
)
    requires
        s.wf(),
        is_run_found(s.runs@, id, found),
        is_mirror_found(s, name, mirror),
    ensures
        found is Some <==> exists|j: int| 0 <= j < s.runs@.len() && (#[trigger] s.runs@[j]).record.id@ == id,
        forall|j: int| 0 <= j < s.runs@.len() && (#[trigger] s.runs@[j]).record.id@ == id ==> found == Some(s.runs@[j].record),
        mirror is Some <==> exists|m: int| 0 <= m < s.mirrors@.len() && (#[trigger] s.mirrors@[m]).name@ == name,
        forall|m: int|
            0 <= m < s.mirrors@.len() && (#[trigger] s.mirrors@[m]).name@ == name ==> mirror->0.name == s.mirrors@[m].name
                && mirror->0.managed == s.mirrors@[m].managed && mirror->0.enabled == s.mirrors@[m].enabled
                && mirror->0.owner_node == s.mirrors@[m].owner_node && mirror->0.current_generation
                == s.mirrors@[m].current_generation,
        is_attempt_of(s, id, attempt_no, node) <==> (exists|a: int|
            0 <= a < s.attempts@.len() && (#[trigger] s.attempts@[a]).record.run_id@ == id && s.attempts@[a].record.attempt_no
                == attempt_no) && (exists|j: int|
            0 <= j < s.runs@.len() && (#[trigger] s.runs@[j]).record.id@ == id && s.runs@[j].record.owner_node@ == node),
{
    tables::lemma_run_index(s.runs@, id);
    tables::lemma_mirror_index(s.mirrors@, name);
    tables::lemma_attempt_index(s.attempts@, id, attempt_no);
    assert forall|j: int| 0 <= j < s.runs@.len() && (#[trigger] s.runs@[j]).record.id@ == id implies tables::run_index(
        s.runs@,
        id,
    ) == Some(j) by {
        lookup::lemma_own_run(s.runs@, j);
    }
    assert forall|m: int| 0 <= m < s.mirrors@.len() && (#[trigger] s.mirrors@[m]).name@ == name implies tables::mirror_index(
        s.mirrors@,
        name,
    ) == Some(m) by {
        lookup::lemma_own_mirror(s.mirrors@, m);
    }
}

} // verus!
