//! Dispatch: what a node is told to do next, and the tables once it has been told.
use super::events::run_of;
use super::tables;
use super::tables::is_active;
use super::tables::AttemptRow;
use super::tables::MirrorRow;
use super::tables::RunRow;
use super::tables::ScheduleRow;
use super::tables::Store;
use super::wellformed;
use crate::domain::schedule::RunTrigger;
use crate::domain::state::AttemptState;
use crate::domain::state::RunState;
use crate::text;
use vstd::prelude::*;

verus! {

/// What a node is told to do.
#[derive(Debug, PartialEq, Eq)]
pub enum PollAction {
    StartAttempt { run_id: String, attempt_no: u32, mirror_name: String, spec_hash: String, spec_json: String },
    CancelAttempt { run_id: String, attempt_no: u32, spec_hash: String },
}

/// What the specification of an attempt is compiled from.
#[derive(Debug, PartialEq, Eq)]
pub struct DispatchSource {
    pub run_id: String,
    pub attempt_no: u32,
    pub mirror_name: String,
    pub mirror_generation: u64,
    pub config_toml: String,
}

/// The limits of a run as its configuration set them.
#[derive(Clone, Copy, Debug, PartialEq, Eq, Structural)]
pub struct RunPolicySnapshot {
    pub max_attempts: u32,
    pub retry_delay_ms: u64,
}

/// A compiled attempt: its specification as JSON, the fingerprint of that, and the run's limits.
#[derive(Debug, PartialEq, Eq)]
pub struct CompiledAttempt {
    pub spec_json: String,
    pub spec_hash: String,
    pub policy: RunPolicySnapshot,
}

/// Which row is next, by its place in its table.
#[derive(Clone, Copy, Debug, PartialEq, Eq, Structural)]
pub enum PollChoice {
    /// An attempt to cancel.
    Cancel(usize),
    /// An attempt to hand out again.
    Redeliver(usize),
    /// Nothing, for want of capacity.
    Full,
    /// A manual run to begin.
    Manual(usize),
    /// A run to retry.
    Retry(usize),
    /// A schedule to make a run of.
    Scheduled(usize),
    /// Nothing to do.
    Idle,
}

/// The run of attempt `i`.
pub open spec fn run_row(s: Store, i: int) -> RunRow {
    s.runs@[run_of(s, i)]
}

/// An attempt of the node that has been handed out, has not ended and is to be cancelled.
pub open spec fn cancellable(s: Store, node: Seq<char>, i: int) -> bool {
    let attempt = s.attempts@[i];
    let run = run_row(s, i);
    &&& 0 <= i < s.attempts@.len()
    &&& run.record.owner_node@ == node
    &&& is_active(run)
    &&& run.record.cancel_requested_at_ms is Some
    &&& attempt.record.attempt_no == run.attempt_count
    &&& attempt.dispatch_count > 0
    &&& !attempt.record.state.terminal()
}

/// An attempt of the node that has been handed out and of which nothing has been heard.
pub open spec fn redeliverable(s: Store, node: Seq<char>, i: int) -> bool {
    let attempt = s.attempts@[i];
    let run = run_row(s, i);
    &&& 0 <= i < s.attempts@.len()
    &&& run.record.owner_node@ == node
    &&& is_active(run)
    &&& attempt.record.state is Queued
    &&& attempt.dispatch_count > 0
}

/// A node has room while fewer runs are active than it allows; an unknown node has room.
pub open spec fn has_capacity(s: Store, node: Seq<char>) -> bool {
    match tables::node_index(s.nodes@, node) {
        Some(i) => s.nodes@[i].record.active_runs < s.nodes@[i].record.max_concurrent_runs,
        None => true,
    }
}

/// The mirror of a run.
pub open spec fn mirror_of(s: Store, run: RunRow) -> MirrorRow {
    s.mirrors@[tables::mirror_index(s.mirrors@, run.record.mirror_name@)->0]
}

/// A manual run of the node that waits for its first attempt and whose mirror is managed and
/// enabled.
pub open spec fn manual_ready(s: Store, node: Seq<char>, j: int) -> bool {
    let run = s.runs@[j];
    &&& 0 <= j < s.runs@.len()
    &&& run.record.owner_node@ == node
    &&& run.record.state is Pending
    &&& run.record.trigger is Manual
    &&& mirror_of(s, run).managed
    &&& mirror_of(s, run).enabled
    &&& !tables::has_attempt(s.attempts@, run.record.id@)
}

/// A run of the node whose retry is due and that may still be retried.
pub open spec fn retry_ready(s: Store, node: Seq<char>, now: i64, j: int) -> bool {
    let run = s.runs@[j];
    &&& 0 <= j < s.runs@.len()
    &&& run.record.owner_node@ == node
    &&& run.record.state is Running
    &&& run.record.retry_due_at_ms is Some && run.record.retry_due_at_ms->0 <= now
    &&& run.record.cancel_requested_at_ms is None
    &&& mirror_of(s, run).managed
    &&& mirror_of(s, run).enabled
    &&& mirror_of(s, run).owner_node@ == run.record.owner_node@
    &&& run.attempt_count < run.record.max_attempts
}

/// The mirror of a schedule.
pub open spec fn scheduled_mirror(s: Store, k: int) -> MirrorRow {
    s.mirrors@[tables::mirror_index(s.mirrors@, s.schedules@[k].mirror_name@)->0]
}

/// A schedule of a managed and enabled mirror of the node that waits for a run while no run of the
/// mirror is in flight.
pub open spec fn schedule_ready(s: Store, node: Seq<char>, k: int) -> bool {
    let mirror = scheduled_mirror(s, k);
    &&& 0 <= k < s.schedules@.len()
    &&& mirror.owner_node@ == node
    &&& mirror.managed
    &&& mirror.enabled
    &&& s.schedules@[k].runtime.catch_up_pending
    &&& s.schedules@[k].runtime.catch_up_since_ms is Some
    &&& !tables::has_active_run(s.runs@, mirror.name@)
}

/// Order by a moment, an absent one first, then by text, then by number.
pub open spec fn sooner(a: (Option<i64>, Seq<char>, int), b: (Option<i64>, Seq<char>, int)) -> bool {
    if a.0 != b.0 {
        a.0 is None || (b.0 is Some && a.0->0 < b.0->0)
    } else if a.1 != b.1 {
        text::lex_less(a.1, b.1)
    } else {
        a.2 < b.2
    }
}

/// The order of cancellations: by request, then by run.
pub open spec fn cancel_key(s: Store, i: int) -> (Option<i64>, Seq<char>, int) {
    (run_row(s, i).record.cancel_requested_at_ms, s.attempts@[i].record.run_id@, 0)
}

/// The order of redeliveries: by last delivery, then by run and attempt.
pub open spec fn redelivery_key(s: Store, i: int) -> (Option<i64>, Seq<char>, int) {
    (s.attempts@[i].last_dispatch_at_ms, s.attempts@[i].record.run_id@, s.attempts@[i].record.attempt_no as int)
}

/// The order of schedules: by how long they wait, then by name.
pub open spec fn schedule_key(s: Store, k: int) -> (Option<i64>, Seq<char>, int) {
    (s.schedules@[k].runtime.catch_up_since_ms, s.schedules@[k].mirror_name@, 0)
}

/// The order of retries: by when they are due, then by the age of the run.
pub open spec fn retry_sooner(a: RunRow, b: RunRow) -> bool {
    ||| a.record.retry_due_at_ms->0 < b.record.retry_due_at_ms->0
    ||| a.record.retry_due_at_ms->0 == b.record.retry_due_at_ms->0 && a.record.created_at_ms < b.record.created_at_ms
}

/// What is next for a node: a cancellation before anything else, then what was handed out and not
/// heard of, and only where the node has room something new: a manual run, else a due retry, else a
/// waiting schedule; of each the first in its order.
pub open spec fn is_next(s: Store, node: Seq<char>, now: i64, choice: PollChoice) -> bool {
    let no_cancel = forall|i: int| !(#[trigger] cancellable(s, node, i));
    let no_redelivery = forall|i: int| !(#[trigger] redeliverable(s, node, i));
    let no_manual = forall|j: int| !(#[trigger] manual_ready(s, node, j));
    let no_retry = forall|j: int| !(#[trigger] retry_ready(s, node, now, j));
    let no_schedule = forall|k: int| !(#[trigger] schedule_ready(s, node, k));
    let fresh = no_cancel && no_redelivery && has_capacity(s, node);
    match choice {
        PollChoice::Cancel(i) => cancellable(s, node, i as int) && forall|o: int| #[trigger]
            cancellable(s, node, o) ==> !sooner(cancel_key(s, o), cancel_key(s, i as int)),
        PollChoice::Redeliver(i) => no_cancel && redeliverable(s, node, i as int) && forall|o: int| #[trigger]
            redeliverable(s, node, o) ==> !sooner(redelivery_key(s, o), redelivery_key(s, i as int)),
        PollChoice::Full => no_cancel && no_redelivery && !has_capacity(s, node),
        PollChoice::Manual(j) => fresh && manual_ready(s, node, j as int) && forall|o: int| #[trigger]
            manual_ready(s, node, o) ==> s.runs@[j as int].record.created_at_ms <= s.runs@[o].record.created_at_ms,
        PollChoice::Retry(j) => fresh && no_manual && retry_ready(s, node, now, j as int) && forall|o: int| #[trigger]
            retry_ready(s, node, now, o) ==> !retry_sooner(s.runs@[o], s.runs@[j as int]),
        PollChoice::Scheduled(k) => fresh && no_manual && no_retry && schedule_ready(s, node, k as int) && forall|
            o: int,
        | #[trigger]
            schedule_ready(s, node, o) ==> !sooner(schedule_key(s, o), schedule_key(s, k as int)),
        PollChoice::Idle => fresh && no_manual && no_retry && no_schedule,
    }
}

proof fn lemma_sooner_transitive(
    a: (Option<i64>, Seq<char>, int),
    b: (Option<i64>, Seq<char>, int),
    c: (Option<i64>, Seq<char>, int),
)
    requires
        sooner(a, b),
        sooner(b, c),
    ensures
        sooner(a, c),
{
    if a.0 == b.0 && b.0 == c.0 && a.1 != b.1 && b.1 != c.1 {
        text::lemma_lex_less_transitive(a.1, b.1, c.1);
        text::lemma_lex_less_total(a.1, c.1);
    }
}

fn is_sooner(
    a_at: Option<i64>,
    a_text: &str,
    a_number: u32,
    b_at: Option<i64>,
    b_text: &str,
    b_number: u32,
) -> (r: bool)
    ensures
        r == sooner((a_at, a_text@, a_number as int), (b_at, b_text@, b_number as int)),
{
    match (a_at, b_at) {
        (None, Some(_)) => true,
        (Some(_), None) => false,
        (Some(x), Some(y)) if x != y => x < y,
        _ => {
            if text::same(a_text, b_text) {
                a_number < b_number
            } else {
                text::less(a_text, b_text)
            }
        },
    }
}

impl Store {
    fn run_at(&self, i: usize) -> (j: usize)
        requires
            self.wf(),
            i < self.attempts@.len(),
        ensures
            j < self.runs@.len(),
            j == run_of(*self, i as int),
            self.runs@[j as int].record.id@ == self.attempts@[i as int].record.run_id@,
    {
        proof {
            assert(wellformed::has_run(self.runs@, self.attempts@[i as int].record.run_id@));
            tables::lemma_run_index(self.runs@, self.attempts@[i as int].record.run_id@);
        }
        tables::find_run(&self.runs, self.attempts[i].record.run_id.as_str()).unwrap()
    }

    fn mirror_at(&self, j: usize) -> (m: usize)
        requires
            self.wf(),
            j < self.runs@.len(),
        ensures
            m < self.mirrors@.len(),
            self.mirrors@[m as int] == mirror_of(*self, self.runs@[j as int]),
            self.mirrors@[m as int].name@ == self.runs@[j as int].record.mirror_name@,
    {
        proof {
            assert(wellformed::has_mirror(self.mirrors@, self.runs@[j as int].record.mirror_name@));
            tables::lemma_mirror_index(self.mirrors@, self.runs@[j as int].record.mirror_name@);
        }
        tables::find_mirror(&self.mirrors, self.runs[j].record.mirror_name.as_str()).unwrap()
    }

    fn schedule_mirror_at(&self, k: usize) -> (m: usize)
        requires
            self.wf(),
            k < self.schedules@.len(),
        ensures
            m < self.mirrors@.len(),
            self.mirrors@[m as int] == scheduled_mirror(*self, k as int),
            self.mirrors@[m as int].name@ == self.schedules@[k as int].mirror_name@,
    {
        proof {
            assert(wellformed::has_mirror(self.mirrors@, self.schedules@[k as int].mirror_name@));
            tables::lemma_mirror_index(self.mirrors@, self.schedules@[k as int].mirror_name@);
        }
        tables::find_mirror(&self.mirrors, self.schedules[k].mirror_name.as_str()).unwrap()
    }

    fn has_attempts(&self, run_id: &str) -> (r: bool)
        ensures
            r == tables::has_attempt(self.attempts@, run_id@),
    {
        let mut i: usize = 0;
        while i < self.attempts.len()
            invariant
                i <= self.attempts.len(),
                forall|k: int| 0 <= k < i ==> (#[trigger] self.attempts@[k]).record.run_id@ != run_id@,
            decreases self.attempts.len() - i,
        {
            if text::same(self.attempts[i].record.run_id.as_str(), run_id) {
                return true;
            }
            i = i + 1;
        }
        false
    }

    fn next_cancellation(&self, node: &str) -> (r: Option<usize>)
        requires
            self.wf(),
        ensures
            match r {
                Some(i) => is_next(*self, node@, 0, PollChoice::Cancel(i)),
                None => forall|i: int| !(#[trigger] cancellable(*self, node@, i)),
            },
    {
        let mut best: Option<usize> = None;
        let mut i: usize = 0;
        while i < self.attempts.len()
            invariant
                self.wf(),
                i <= self.attempts.len(),
                match best {
                    Some(b) => b < i && cancellable(*self, node@, b as int) && forall|o: int|
                        0 <= o < i && #[trigger] cancellable(*self, node@, o) ==> !sooner(
                            cancel_key(*self, o),
                            cancel_key(*self, b as int),
                        ),
                    None => forall|o: int| 0 <= o < i ==> !(#[trigger] cancellable(*self, node@, o)),
                },
            decreases self.attempts.len() - i,
        {
            let attempt: &AttemptRow = &self.attempts[i];
            let j: usize = self.run_at(i);
            let run: &RunRow = &self.runs[j];
            let wanted: bool = attempt.dispatch_count > 0 && !attempt.record.state.is_terminal()
                && attempt.record.attempt_no == run.attempt_count && run.record.cancel_requested_at_ms.is_some()
                && !run.record.state.is_terminal() && text::same(run.record.owner_node.as_str(), node);
            assert(wanted == cancellable(*self, node@, i as int));
            if wanted {
                match best {
                    None => {
                        best = Some(i);
                    },
                    Some(b) => {
                        let bj: usize = self.run_at(b);
                        let earlier: bool = is_sooner(
                            run.record.cancel_requested_at_ms,
                            attempt.record.run_id.as_str(),
                            0,
                            self.runs[bj].record.cancel_requested_at_ms,
                            self.attempts[b].record.run_id.as_str(),
                            0,
                        );
                        if earlier {
                            proof {
                                assert forall|o: int| 0 <= o < i && #[trigger] cancellable(*self, node@, o) implies !sooner(
                                    cancel_key(*self, o),
                                    cancel_key(*self, i as int),
                                ) by {
                                    if sooner(cancel_key(*self, o), cancel_key(*self, i as int)) {
                                        lemma_sooner_transitive(
                                            cancel_key(*self, o),
                                            cancel_key(*self, i as int),
                                            cancel_key(*self, b as int),
                                        );
                                    }
                                }
                                text::lemma_lex_less_total(attempt.record.run_id@, attempt.record.run_id@);
                            }
                            best = Some(i);
                        }
                    },
                }
            }
            i = i + 1;
        }
        best
    }

    fn next_redelivery(&self, node: &str) -> (r: Option<usize>)
        requires
            self.wf(),
        ensures
            match r {
                Some(i) => redeliverable(*self, node@, i as int) && forall|o: int| #[trigger]
                    redeliverable(*self, node@, o) ==> !sooner(
                        redelivery_key(*self, o),
                        redelivery_key(*self, i as int),
                    ),
                None => forall|i: int| !(#[trigger] redeliverable(*self, node@, i)),
            },
    {
        let mut best: Option<usize> = None;
        let mut i: usize = 0;
        while i < self.attempts.len()
            invariant
                self.wf(),
                i <= self.attempts.len(),
                match best {
                    Some(b) => b < i && redeliverable(*self, node@, b as int) && forall|o: int|
                        0 <= o < i && #[trigger] redeliverable(*self, node@, o) ==> !sooner(
                            redelivery_key(*self, o),
                            redelivery_key(*self, b as int),
                        ),
                    None => forall|o: int| 0 <= o < i ==> !(#[trigger] redeliverable(*self, node@, o)),
                },
            decreases self.attempts.len() - i,
        {
            let attempt: &AttemptRow = &self.attempts[i];
            let j: usize = self.run_at(i);
            let run: &RunRow = &self.runs[j];
            let wanted: bool = attempt.dispatch_count > 0 && attempt.record.state == AttemptState::Queued
                && !run.record.state.is_terminal() && text::same(run.record.owner_node.as_str(), node);
            assert(wanted == redeliverable(*self, node@, i as int));
            if wanted {
                match best {
                    None => {
                        best = Some(i);
                    },
                    Some(b) => {
                        let earlier: bool = is_sooner(
                            attempt.last_dispatch_at_ms,
                            attempt.record.run_id.as_str(),
                            attempt.record.attempt_no,
                            self.attempts[b].last_dispatch_at_ms,
                            self.attempts[b].record.run_id.as_str(),
                            self.attempts[b].record.attempt_no,
                        );
                        if earlier {
                            proof {
                                assert forall|o: int| 0 <= o < i && #[trigger] redeliverable(
                                    *self,
                                    node@,
                                    o,
                                ) implies !sooner(redelivery_key(*self, o), redelivery_key(*self, i as int)) by {
                                    if sooner(redelivery_key(*self, o), redelivery_key(*self, i as int)) {
                                        lemma_sooner_transitive(
                                            redelivery_key(*self, o),
                                            redelivery_key(*self, i as int),
                                            redelivery_key(*self, b as int),
                                        );
                                    }
                                }
                                text::lemma_lex_less_total(attempt.record.run_id@, attempt.record.run_id@);
                            }
                            best = Some(i);
                        }
                    },
                }
            }
            i = i + 1;
        }
        best
    }

    fn node_has_capacity(&self, node: &str) -> (r: bool)
        ensures
            r == has_capacity(*self, node@),
    {
        match tables::find_node(&self.nodes, node) {
            Some(i) => self.nodes[i].record.active_runs < self.nodes[i].record.max_concurrent_runs,
            None => true,
        }
    }

    fn next_manual(&self, node: &str) -> (r: Option<usize>)
        requires
            self.wf(),
        ensures
            match r {
                Some(j) => manual_ready(*self, node@, j as int) && forall|o: int| #[trigger]
                    manual_ready(*self, node@, o) ==> self.runs@[j as int].record.created_at_ms
                        <= self.runs@[o].record.created_at_ms,
                None => forall|j: int| !(#[trigger] manual_ready(*self, node@, j)),
            },
    {
        let mut best: Option<usize> = None;
        let mut j: usize = 0;
        while j < self.runs.len()
            invariant
                self.wf(),
                j <= self.runs.len(),
                match best {
                    Some(b) => b < j && manual_ready(*self, node@, b as int) && forall|o: int|
                        0 <= o < j && #[trigger] manual_ready(*self, node@, o) ==> self.runs@[b as int].record.created_at_ms
                            <= self.runs@[o].record.created_at_ms,
                    None => forall|o: int| 0 <= o < j ==> !(#[trigger] manual_ready(*self, node@, o)),
                },
            decreases self.runs.len() - j,
        {
            let run: &RunRow = &self.runs[j];
            let m: usize = self.mirror_at(j);
            let wanted: bool = run.record.state == RunState::Pending && run.record.trigger == RunTrigger::Manual
                && self.mirrors[m].managed && self.mirrors[m].enabled && text::same(
                run.record.owner_node.as_str(),
                node,
            ) && !self.has_attempts(run.record.id.as_str());
            assert(wanted == manual_ready(*self, node@, j as int));
            if wanted {
                match best {
                    None => {
                        best = Some(j);
                    },
                    Some(b) => {
                        if run.record.created_at_ms < self.runs[b].record.created_at_ms {
                            best = Some(j);
                        }
                    },
                }
            }
            j = j + 1;
        }
        best
    }

    fn next_retry(&self, node: &str, now: i64) -> (r: Option<usize>)
        requires
            self.wf(),
        ensures
            match r {
                Some(j) => retry_ready(*self, node@, now, j as int) && forall|o: int| #[trigger]
                    retry_ready(*self, node@, now, o) ==> !retry_sooner(self.runs@[o], self.runs@[j as int]),
                None => forall|j: int| !(#[trigger] retry_ready(*self, node@, now, j)),
            },
    {
        let mut best: Option<usize> = None;
        let mut j: usize = 0;
        while j < self.runs.len()
            invariant
                self.wf(),
                j <= self.runs.len(),
                match best {
                    Some(b) => b < j && retry_ready(*self, node@, now, b as int) && forall|o: int|
                        0 <= o < j && #[trigger] retry_ready(*self, node@, now, o) ==> !retry_sooner(
                            self.runs@[o],
                            self.runs@[b as int],
                        ),
                    None => forall|o: int| 0 <= o < j ==> !(#[trigger] retry_ready(*self, node@, now, o)),
                },
            decreases self.runs.len() - j,
        {
            let run: &RunRow = &self.runs[j];
            let m: usize = self.mirror_at(j);
            let due: bool = match run.record.retry_due_at_ms {
                Some(moment) => moment <= now,
                None => false,
            };
            let wanted: bool = due && run.record.state == RunState::Running && run.record.cancel_requested_at_ms.is_none()
                && self.mirrors[m].managed && self.mirrors[m].enabled && run.attempt_count < run.record.max_attempts
                && text::same(run.record.owner_node.as_str(), node) && text::same(
                self.mirrors[m].owner_node.as_str(),
                run.record.owner_node.as_str(),
            );
            assert(wanted == retry_ready(*self, node@, now, j as int));
            if wanted {
                match best {
                    None => {
                        best = Some(j);
                    },
                    Some(b) => {
                        let due_at: i64 = run.record.retry_due_at_ms.unwrap();
                        let best_at: i64 = self.runs[b].record.retry_due_at_ms.unwrap();
                        if due_at < best_at || (due_at == best_at && run.record.created_at_ms
                            < self.runs[b].record.created_at_ms) {
                            best = Some(j);
                        }
                    },
                }
            }
            j = j + 1;
        }
        best
    }

    fn next_scheduled(&self, node: &str) -> (r: Option<usize>)
        requires
            self.wf(),
        ensures
            match r {
                Some(k) => schedule_ready(*self, node@, k as int) && forall|o: int| #[trigger]
                    schedule_ready(*self, node@, o) ==> !sooner(schedule_key(*self, o), schedule_key(*self, k as int)),
                None => forall|k: int| !(#[trigger] schedule_ready(*self, node@, k)),
            },
    {
        let mut best: Option<usize> = None;
        let mut k: usize = 0;
        while k < self.schedules.len()
            invariant
                self.wf(),
                k <= self.schedules.len(),
                match best {
                    Some(b) => b < k && schedule_ready(*self, node@, b as int) && forall|o: int|
                        0 <= o < k && #[trigger] schedule_ready(*self, node@, o) ==> !sooner(
                            schedule_key(*self, o),
                            schedule_key(*self, b as int),
                        ),
                    None => forall|o: int| 0 <= o < k ==> !(#[trigger] schedule_ready(*self, node@, o)),
                },
            decreases self.schedules.len() - k,
        {
            let row: &ScheduleRow = &self.schedules[k];
            let m: usize = self.schedule_mirror_at(k);
            let mirror: &MirrorRow = &self.mirrors[m];
            let wanted: bool = row.runtime.catch_up_pending && row.runtime.catch_up_since_ms.is_some() && mirror.managed
                && mirror.enabled && text::same(mirror.owner_node.as_str(), node) && tables::find_active_run(
                &self.runs,
                mirror.name.as_str(),
            ).is_none();
            assert(wanted == schedule_ready(*self, node@, k as int));
            if wanted {
                match best {
                    None => {
                        best = Some(k);
                    },
                    Some(b) => {
                        let earlier: bool = is_sooner(
                            row.runtime.catch_up_since_ms,
                            row.mirror_name.as_str(),
                            0,
                            self.schedules[b].runtime.catch_up_since_ms,
                            self.schedules[b].mirror_name.as_str(),
                            0,
                        );
                        if earlier {
                            proof {
                                assert forall|o: int| 0 <= o < k && #[trigger] schedule_ready(
                                    *self,
                                    node@,
                                    o,
                                ) implies !sooner(schedule_key(*self, o), schedule_key(*self, k as int)) by {
                                    if sooner(schedule_key(*self, o), schedule_key(*self, k as int)) {
                                        lemma_sooner_transitive(
                                            schedule_key(*self, o),
                                            schedule_key(*self, k as int),
                                            schedule_key(*self, b as int),
                                        );
                                    }
                                }
                                text::lemma_lex_less_total(row.mirror_name@, row.mirror_name@);
                            }
                            best = Some(k);
                        }
                    },
                }
            }
            k = k + 1;
        }
        best
    }

    /// Finds what is next for a node.
    pub fn poll_choice(&self, node: &str, now: i64) -> (r: PollChoice)
        requires
            self.wf(),
        ensures
            is_next(*self, node@, now, r),
    {
        if let Some(i) = self.next_cancellation(node) {
            return PollChoice::Cancel(i);
        }
        if let Some(i) = self.next_redelivery(node) {
            return PollChoice::Redeliver(i);
        }
        if !self.node_has_capacity(node) {
            return PollChoice::Full;
        }
        if let Some(j) = self.next_manual(node) {
            return PollChoice::Manual(j);
        }
        if let Some(j) = self.next_retry(node, now) {
            return PollChoice::Retry(j);
        }
        match self.next_scheduled(node) {
            Some(k) => PollChoice::Scheduled(k),
            None => PollChoice::Idle,
        }
    }
}

/// Of several things of one kind the one comes first that waits longest: the cancellation that was asked for first, what
/// was handed out longest ago, the retry that is due first, and of those the run that was made first, and the
/// schedule that waits longest; at the same moment the order of the names decides.
pub proof fn law_the_longest_waiting_comes_first(s: Store, node: Seq<char>, now: i64, choice: PollChoice, o: int)
    requires
        is_next(s, node, now, choice),
    ensures
        choice is Cancel && cancellable(s, node, o) ==> {
            let first = run_row(s, choice->Cancel_0 as int).record;
            let other = run_row(s, o).record;
            ||| first.cancel_requested_at_ms->0 < other.cancel_requested_at_ms->0
            ||| first.cancel_requested_at_ms->0 == other.cancel_requested_at_ms->0 && !text::lex_less(
                s.attempts@[o].record.run_id@,
                s.attempts@[choice->Cancel_0 as int].record.run_id@,
            )
        },
        choice is Redeliver && redeliverable(s, node, o) ==> {
            let first = s.attempts@[choice->Redeliver_0 as int];
            let other = s.attempts@[o];
            ||| first.last_dispatch_at_ms is None && other.last_dispatch_at_ms is Some
            ||| first.last_dispatch_at_ms is Some && other.last_dispatch_at_ms is Some && first.last_dispatch_at_ms->0
                < other.last_dispatch_at_ms->0
            ||| first.last_dispatch_at_ms == other.last_dispatch_at_ms && first.record.run_id@ != other.record.run_id@
                && text::lex_less(first.record.run_id@, other.record.run_id@)
            ||| first.last_dispatch_at_ms == other.last_dispatch_at_ms && first.record.run_id@ == other.record.run_id@
                && first.record.attempt_no <= other.record.attempt_no
        },
        choice is Retry && retry_ready(s, node, now, o) ==> {
            let first = s.runs@[choice->Retry_0 as int].record;
            let other = s.runs@[o].record;
            ||| first.retry_due_at_ms->0 < other.retry_due_at_ms->0
            ||| first.retry_due_at_ms->0 == other.retry_due_at_ms->0 && first.created_at_ms <= other.created_at_ms
        },
        choice is Manual && manual_ready(s, node, o) ==> s.runs@[choice->Manual_0 as int].record.created_at_ms
            <= s.runs@[o].record.created_at_ms,
        choice is Scheduled && schedule_ready(s, node, o) ==> {
            let first = s.schedules@[choice->Scheduled_0 as int];
            let other = s.schedules@[o];
            ||| first.runtime.catch_up_since_ms->0 < other.runtime.catch_up_since_ms->0
            ||| first.runtime.catch_up_since_ms->0 == other.runtime.catch_up_since_ms->0 && !text::lex_less(
                other.mirror_name@,
                first.mirror_name@,
            )
        },
{
    if choice is Redeliver && redeliverable(s, node, o) {
        let first = s.attempts@[choice->Redeliver_0 as int].record.run_id@;
        text::lemma_lex_less_total(first, s.attempts@[o].record.run_id@);
    }
    if choice is Cancel && cancellable(s, node, o) {
        let first = s.attempts@[choice->Cancel_0 as int].record.run_id@;
        text::lemma_lex_less_total(first, s.attempts@[o].record.run_id@);
    }
    if choice is Scheduled && schedule_ready(s, node, o) {
        text::lemma_lex_less_total(
            s.schedules@[choice->Scheduled_0 as int].mirror_name@,
            s.schedules@[o].mirror_name@,
        );
    }
}

} // verus!
