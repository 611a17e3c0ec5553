//! Cancellation: asked for once, and final at once where no agent holds the attempt.
use super::asked::answers;
use super::asked::reads_as;
use super::events;
use super::keys;
use super::tables;
use super::tables::AttemptRow;
use super::tables::MirrorRow;
use super::tables::RunRecord;
use super::tables::RunRow;
use super::tables::Store;
use super::tables::StoreError;
use super::wellformed;
use crate::domain::state;
use crate::domain::state::AttemptState;
use crate::domain::state::RunState;
use crate::text;
use vstd::prelude::*;

verus! {

/// What a request to cancel came to.
#[derive(Debug, PartialEq, Eq)]
pub struct CancellationApplyResult {
    pub run: RunRecord,
    pub newly_requested: bool,
}

/// True when an agent holds the run's latest attempt: it has been handed out and has not ended.
pub open spec fn held_by_agent(s: Store, run: RunRow) -> bool {
    exists|i: int|
        0 <= i < s.attempts@.len() && (#[trigger] s.attempts@[i]).record.run_id@ == run.record.id@
            && s.attempts@[i].record.attempt_no == run.attempt_count && s.attempts@[i].dispatch_count > 0
            && !s.attempts@[i].record.state.terminal()
}

/// The run with its cancellation asked for; the first request counts.
pub open spec fn cancel_requested(run: RunRow, now: i64) -> RunRow {
    RunRow {
        record: RunRecord {
            cancel_requested_at_ms: state::either(run.record.cancel_requested_at_ms, Some(now)),
            ..run.record
        },
        ..run
    }
}

/// The run cancelled, without a failure.
pub open spec fn run_cancelled(run: RunRow, now: i64) -> RunRow {
    RunRow {
        record: RunRecord {
            state: RunState::Cancelled,
            finished_at_ms: Some(now),
            retry_due_at_ms: None,
            final_exit_code: None,
            failure_kind: None,
            failure_message: None,
            ..cancel_requested(run, now).record
        },
        ..run
    }
}

/// The attempt as the run's cancellation leaves it: cancelled where it was never handed out and has
/// not ended.
pub open spec fn attempt_withdrawn(attempt: AttemptRow, run_id: Seq<char>, now: i64) -> AttemptRow {
    if attempt.record.run_id@ == run_id && attempt.dispatch_count == 0 && !attempt.record.state.terminal() {
        AttemptRow {
            record: tables::AttemptRecord {
                state: AttemptState::Cancelled,
                finished_at_ms: state::either(attempt.record.finished_at_ms, Some(now)),
                ..attempt.record
            },
            ..attempt
        }
    } else {
        attempt
    }
}

/// The attempts as the run's cancellation leaves them.
pub open spec fn attempts_withdrawn(before: Seq<AttemptRow>, after: Seq<AttemptRow>, run_id: Seq<char>, now: i64) -> bool {
    &&& after.len() == before.len()
    &&& forall|i: int| 0 <= i < before.len() ==> (#[trigger] after[i]) == attempt_withdrawn(before[i], run_id, now)
}

/// True when the run's mirror is managed, enabled and still owned by the run's node.
pub open spec fn rearmable(s: Store, run: RunRow) -> bool {
    let mirror = super::dispatch::mirror_of(s, run);
    mirror.managed && mirror.enabled && mirror.owner_node@ == run.record.owner_node@
}

/// The tables after the cancellation of run `j` that no agent holds.
pub open spec fn cancelled_at_once(before: Store, after: Store, j: int, now: i64, next_due: Option<i64>) -> bool {
    let run = before.runs@[j];
    &&& events::only_runs_change(before, after)
    &&& after.runs@ == before.runs@.update(j, run_cancelled(run, now))
    &&& attempts_withdrawn(before.attempts@, after.attempts@, run.record.id@, now)
    &&& after.schedules@ == (match next_due {
        Some(moment) => events::schedules_rearmed(before.schedules@, run.record.mirror_name@, moment, now),
        None => before.schedules@,
    })
}

/// The tables after the cancellation of run `j` has been asked for and an agent is yet to act on it.
pub open spec fn cancel_recorded(before: Store, after: Store, j: int, now: i64) -> bool {
    &&& events::only_runs_change(before, after)
    &&& after.runs@ == before.runs@.update(j, cancel_requested(before.runs@[j], now))
    &&& after.attempts == before.attempts
    &&& after.schedules == before.schedules
}

/// What a request to cancel comes to; `rearm` says when the mirror's interval is due again.
pub open spec fn cancellation_outcome(
    before: Store,
    after: Store,
    run_id: Seq<char>,
    now: i64,
    rearm: spec_fn(Seq<char>, Result<Option<i64>, StoreError>) -> bool,
    r: Result<CancellationApplyResult, StoreError>,
) -> bool {
    match tables::run_index(before.runs@, run_id) {
        None => r == Err::<CancellationApplyResult, StoreError>(StoreError::AttemptNotFound) && after
            == before,
        Some(j) => {
            let run = before.runs@[j];
            if run.record.state.terminal() {
                &&& after == before
                &&& r == Ok::<CancellationApplyResult, StoreError>(
                    (CancellationApplyResult { run: run.record, newly_requested: false }),
                )
            } else if held_by_agent(before, run) {
                &&& cancel_recorded(before, after, j, now)
                &&& r == Ok::<CancellationApplyResult, StoreError>(
                    (CancellationApplyResult {
                        run: cancel_requested(run, now).record,
                        newly_requested: run.record.cancel_requested_at_ms is None,
                    }),
                )
            } else if !rearmable(before, run) {
                &&& cancelled_at_once(before, after, j, now, None)
                &&& r == Ok::<CancellationApplyResult, StoreError>(
                    (CancellationApplyResult {
                        run: run_cancelled(run, now).record,
                        newly_requested: run.record.cancel_requested_at_ms is None,
                    }),
                )
            } else {
                exists|outcome: Result<Option<i64>, StoreError>|
                    #[trigger] answers(
                        rearm,
                        super::poll::config_of(
                            before,
                            run.record.mirror_name@,
                            super::dispatch::mirror_of(before, run).current_generation,
                        )@,
                        outcome,
                    ) && match outcome {
                        Err(error) => after == before && r == Err::<
                            CancellationApplyResult,
                            StoreError,
                        >(error),
                        Ok(next_due) => cancelled_at_once(before, after, j, now, next_due) && r
                            == Ok::<CancellationApplyResult, StoreError>(
                            (CancellationApplyResult {
                                run: run_cancelled(run, now).record,
                                newly_requested: run.record.cancel_requested_at_ms is None,
                            }),
                        ),
                    }
            }
        },
    }
}

impl Store {
    fn agent_holds(&self, j: usize) -> (r: bool)
        requires
            j < self.runs@.len(),
        ensures
            r == held_by_agent(*self, self.runs@[j as int]),
    {
        let run: &RunRow = &self.runs[j];
        let mut i: usize = 0;
        while i < self.attempts.len()
            invariant
                i <= self.attempts.len(),
                j < self.runs@.len(),
                *run == self.runs@[j as int],
                forall|k: int|
                    0 <= k < i ==> !((#[trigger] self.attempts@[k]).record.run_id@ == run.record.id@
                        && self.attempts@[k].record.attempt_no == run.attempt_count && self.attempts@[k].dispatch_count
                        > 0 && !self.attempts@[k].record.state.terminal()),
            decreases self.attempts.len() - i,
        {
            let attempt: &AttemptRow = &self.attempts[i];
            if attempt.dispatch_count > 0 && attempt.record.attempt_no == run.attempt_count
                && !attempt.record.state.is_terminal() && text::same(
                attempt.record.run_id.as_str(),
                run.record.id.as_str(),
            ) {
                return true;
            }
            i = i + 1;
        }
        false
    }

    fn withdraw_attempts(&mut self, run_id: &str, now: i64)
        requires
            old(self).wf(),
        ensures
            final(self).wf(),
            events::only_runs_change(*old(self), *final(self)),
            final(self).runs == old(self).runs,
            final(self).schedules == old(self).schedules,
            attempts_withdrawn(old(self).attempts@, final(self).attempts@, run_id@, now),
    {
        let ghost start = *self;
        let mut i: usize = 0;
        while i < self.attempts.len()
            invariant
                i <= self.attempts.len(),
                self.attempts@.len() == start.attempts@.len(),
                events::only_runs_change(start, *self),
                self.runs == start.runs,
                self.schedules == start.schedules,
                forall|k: int|
                    0 <= k < i ==> (#[trigger] self.attempts@[k]) == attempt_withdrawn(
                        start.attempts@[k],
                        run_id@,
                        now,
                    ),
                forall|k: int| i <= k < start.attempts@.len() ==> (#[trigger] self.attempts@[k]) == start.attempts@[k],
            decreases self.attempts.len() - i,
        {
            let wanted: bool = self.attempts[i].dispatch_count == 0 && !self.attempts[i].record.state.is_terminal()
                && text::same(self.attempts[i].record.run_id.as_str(), run_id);
            if wanted {
                let row: &mut AttemptRow = &mut self.attempts[i];
                row.record.state = AttemptState::Cancelled;
                if row.record.finished_at_ms.is_none() {
                    row.record.finished_at_ms = Some(now);
                }
            }
            i = i + 1;
        }
        proof {
            keys::lemma_keys_kept(start, *self);
        }
    }

    /// Cancels run `j`, which no agent holds.
    pub fn cancel_at_once(&mut self, j: usize, now: i64, next_due: Option<i64>)
        requires
            old(self).wf(),
            j < old(self).runs@.len(),
        ensures
            final(self).wf(),
            cancelled_at_once(*old(self), *final(self), j as int, now, next_due),
    {
        let ghost start = *self;
        let id: String = self.runs[j].record.id.clone();
        let mirror: String = self.runs[j].record.mirror_name.clone();
        let run: &mut RunRow = &mut self.runs[j];
        if run.record.cancel_requested_at_ms.is_none() {
            run.record.cancel_requested_at_ms = Some(now);
        }
        run.record.state = RunState::Cancelled;
        run.record.finished_at_ms = Some(now);
        run.record.retry_due_at_ms = None;
        run.record.final_exit_code = None;
        run.record.failure_kind = None;
        run.record.failure_message = None;
        proof {
            assert(self.runs@ == start.runs@.update(j as int, run_cancelled(start.runs@[j as int], now)));
            keys::lemma_keys_kept(start, *self);
        }
        self.withdraw_attempts(id.as_str(), now);
        if let Some(moment) = next_due {
            self.rearm_schedule(mirror.as_str(), moment, now);
        }
    }

    /// Asks for the cancellation of a run. One that has ended stays as it is; one that an agent holds
    /// is marked; any other is cancelled at once, and `rearm` is asked when the mirror's interval is
    /// due again.
    pub fn request_cancellation<F: FnOnce(&str) -> Result<Option<i64>, StoreError>>(
        &mut self,
        run_id: &str,
        now: i64,
        rearm: F,
    ) -> (r: Result<CancellationApplyResult, StoreError>)
        requires
            old(self).wf(),
            forall|config: &str| #[trigger] call_requires(rearm, (config,)),
        ensures
            final(self).wf(),
            cancellation_outcome(
                *old(self),
                *final(self),
                run_id@,
                now,
                |config: Seq<char>, outcome: Result<Option<i64>, StoreError>|
                    reads_as(rearm, config, outcome),
                r,
            ),
    {
        let j: usize = match tables::find_run(&self.runs, run_id) {
            None => {
                return Err(StoreError::AttemptNotFound);
            },
            Some(found) => found,
        };
        let ghost start = *self;
        if self.runs[j].record.state.is_terminal() {
            return Ok(CancellationApplyResult { run: self.runs[j].record.clone(), newly_requested: false });
        }
        let newly_requested: bool = self.runs[j].record.cancel_requested_at_ms.is_none();
        if self.agent_holds(j) {
            let run: &mut RunRow = &mut self.runs[j];
            if run.record.cancel_requested_at_ms.is_none() {
                run.record.cancel_requested_at_ms = Some(now);
            }
            proof {
                assert(self.runs@ == start.runs@.update(j as int, cancel_requested(start.runs@[j as int], now)));
                keys::lemma_keys_kept(start, *self);
            }
            return Ok(CancellationApplyResult { run: self.runs[j].record.clone(), newly_requested });
        }
        proof {
            assert(wellformed::has_mirror(self.mirrors@, self.runs@[j as int].record.mirror_name@));
            tables::lemma_mirror_index(self.mirrors@, self.runs@[j as int].record.mirror_name@);
        }
        let m: usize = tables::find_mirror(&self.mirrors, self.runs[j].record.mirror_name.as_str()).unwrap();
        let mirror: &MirrorRow = &self.mirrors[m];
        let mut next_due: Option<i64> = None;
        if mirror.managed && mirror.enabled && text::same(
            mirror.owner_node.as_str(),
            self.runs[j].record.owner_node.as_str(),
        ) {
            proof {
                assert(wellformed::has_generation(self.generations@, mirror.name@, mirror.current_generation));
                tables::lemma_generation_index(self.generations@, mirror.name@, mirror.current_generation);
            }
            let g: usize = tables::find_generation(
                &self.generations,
                mirror.name.as_str(),
                mirror.current_generation,
            ).unwrap();
            let config: &str = self.generations[g].config_toml.as_str();
            let ghost asked = super::poll::config_of(
                start,
                start.runs@[j as int].record.mirror_name@,
                super::dispatch::mirror_of(start, start.runs@[j as int]).current_generation,
            )@;
            match rearm(config) {
                Err(error) => {
                    proof {
                        let answerer = |config: Seq<char>, outcome: Result<Option<i64>, StoreError>|
                            reads_as(rearm, config, outcome);
                        assert(call_ensures(rearm, (config,), Err::<Option<i64>, StoreError>(error)));
                        assert(config@ == asked);
                        assert(reads_as(rearm, config@, Err::<Option<i64>, StoreError>(error)));
                        assert(answers(answerer, asked, Err::<Option<i64>, StoreError>(error)));
                    }
                    return Err(error);
                },
                Ok(moment) => {
                    proof {
                        let answerer = |config: Seq<char>, outcome: Result<Option<i64>, StoreError>|
                            reads_as(rearm, config, outcome);
                        assert(call_ensures(rearm, (config,), Ok::<Option<i64>, StoreError>(moment)));
                        assert(config@ == asked);
                        assert(reads_as(rearm, config@, Ok::<Option<i64>, StoreError>(moment)));
                        assert(answers(answerer, asked, Ok::<Option<i64>, StoreError>(moment)));
                    }
                    next_due = moment;
                },
            }
        }
        self.cancel_at_once(j, now, next_due);
        Ok(CancellationApplyResult { run: self.runs[j].record.clone(), newly_requested })
    }
}

/// Asking twice is asking once: the second request finds the first, whose moment stays.
pub proof fn law_cancellation_is_idempotent(run: RunRow, first: i64, second: i64)
    ensures
        cancel_requested(cancel_requested(run, first), second) == cancel_requested(run, first),
        cancel_requested(run, first).record.cancel_requested_at_ms is Some,
        run_cancelled(run, first).record.state.terminal(),
{
}

/// A cancelled run is no longer handed out: nothing of it is cancellable, redeliverable, ready to
/// begin or ready to retry.
pub proof fn law_cancelled_runs_are_not_handed_out(before: Store, after: Store, j: int, now: i64, next_due: Option<i64>, node: Seq<char>, later: i64)
    requires
        0 <= j < before.runs@.len(),
        cancelled_at_once(before, after, j, now, next_due),
    ensures
        !super::dispatch::manual_ready(after, node, j),
        !super::dispatch::retry_ready(after, node, later, j),
        forall|i: int|
            events::run_of(after, i) == j ==> !(#[trigger] super::dispatch::cancellable(after, node, i))
                && !super::dispatch::redeliverable(after, node, i),
{
}

/// A run that an agent may still hold, because its latest attempt was handed out and has not ended, is
/// only marked: it ends by what the agent reports. Asking again keeps the moment of the first request.
pub proof fn law_held_runs_are_only_marked(
    before: Store,
    after: Store,
    run_id: Seq<char>,
    now: i64,
    rearm: spec_fn(Seq<char>, Result<Option<i64>, StoreError>) -> bool,
    r: Result<CancellationApplyResult, StoreError>,
    j: int,
    a: int,
)
    requires
        before.wf(),
        cancellation_outcome(before, after, run_id, now, rearm, r),
        0 <= j < before.runs@.len(),
        before.runs@[j].record.id@ == run_id,
        before.runs@[j].record.state == RunState::Pending || before.runs@[j].record.state == RunState::Running,
        0 <= a < before.attempts@.len(),
        before.attempts@[a].record.run_id@ == run_id,
        before.attempts@[a].record.attempt_no == before.runs@[j].attempt_count,
        before.attempts@[a].dispatch_count > 0,
        before.attempts@[a].record.state == AttemptState::Queued || before.attempts@[a].record.state
            == AttemptState::Accepted || before.attempts@[a].record.state == AttemptState::Running,
    ensures
        r is Ok,
        r->Ok_0.run == after.runs@[j].record,
        r->Ok_0.newly_requested == (before.runs@[j].record.cancel_requested_at_ms is None),
        before.runs@[j].record.cancel_requested_at_ms is Some ==> after.runs@[j] == before.runs@[j],
        before.runs@[j].record.cancel_requested_at_ms is None ==> after.runs@[j].record.cancel_requested_at_ms == Some(now),
        after.runs@[j].record.state == before.runs@[j].record.state,
        after.runs@[j].record.finished_at_ms == before.runs@[j].record.finished_at_ms,
        after.runs@[j].record.retry_due_at_ms == before.runs@[j].record.retry_due_at_ms,
        after.runs@.len() == before.runs@.len(),
        forall|o: int| 0 <= o < before.runs@.len() && o != j ==> #[trigger] after.runs@[o] == before.runs@[o],
        after.attempts@ == before.attempts@,
        after.schedules@ == before.schedules@,
{
    super::lookup::lemma_own_run(before.runs@, j);
    assert(held_by_agent(before, before.runs@[j]));
}

/// A run that no agent holds is cancelled there and then, with what of it was never handed out, and
/// nothing of any other run changes.
pub proof fn law_runs_that_nobody_holds_end_at_once(
    before: Store,
    after: Store,
    run_id: Seq<char>,
    now: i64,
    rearm: spec_fn(Seq<char>, Result<Option<i64>, StoreError>) -> bool,
    result: CancellationApplyResult,
    j: int,
)
    requires
        before.wf(),
        cancellation_outcome(before, after, run_id, now, rearm, Ok(result)),
        0 <= j < before.runs@.len(),
        before.runs@[j].record.id@ == run_id,
        before.runs@[j].record.state == RunState::Pending || before.runs@[j].record.state == RunState::Running,
        forall|a: int|
            0 <= a < before.attempts@.len() && (#[trigger] before.attempts@[a]).record.run_id@ == run_id
                && before.attempts@[a].record.attempt_no == before.runs@[j].attempt_count ==> {
                ||| before.attempts@[a].dispatch_count == 0
                ||| before.attempts@[a].record.state == AttemptState::Succeeded
                ||| before.attempts@[a].record.state == AttemptState::Failed
                ||| before.attempts@[a].record.state == AttemptState::TimedOut
                ||| before.attempts@[a].record.state == AttemptState::Cancelled
                ||| before.attempts@[a].record.state == AttemptState::Interrupted
                ||| before.attempts@[a].record.state == AttemptState::Rejected
            },
    ensures
        ({
            let was = before.runs@[j].record;
            let is = after.runs@[j].record;
            &&& result.run == is
            &&& result.newly_requested == (was.cancel_requested_at_ms is None)
            &&& is.state == RunState::Cancelled
            &&& is.finished_at_ms == Some(now)
            &&& is.retry_due_at_ms is None
            &&& is.final_exit_code is None
            &&& is.failure_kind is None
            &&& is.failure_message is None
            &&& was.cancel_requested_at_ms is Some ==> is.cancel_requested_at_ms == was.cancel_requested_at_ms
            &&& was.cancel_requested_at_ms is None ==> is.cancel_requested_at_ms == Some(now)
            &&& is.id == was.id && is.mirror_name == was.mirror_name && is.owner_node == was.owner_node && is.trigger
                == was.trigger && is.created_at_ms == was.created_at_ms && is.started_at_ms == was.started_at_ms
                && is.max_attempts == was.max_attempts && is.retry_delay_ms == was.retry_delay_ms
            &&& after.runs@.len() == before.runs@.len()
            &&& forall|o: int| 0 <= o < before.runs@.len() && o != j ==> #[trigger] after.runs@[o] == before.runs@[o]
            &&& after.attempts@.len() == before.attempts@.len()
            &&& forall|a: int|
                0 <= a < before.attempts@.len() ==> {
                    let old_state = before.attempts@[a].record.state;
                    if before.attempts@[a].record.run_id@ == run_id && before.attempts@[a].dispatch_count == 0 && (old_state
                        == AttemptState::Queued || old_state == AttemptState::Accepted || old_state == AttemptState::Running) {
                        &&& (#[trigger] after.attempts@[a]).record.state == AttemptState::Cancelled
                        &&& after.attempts@[a].record.finished_at_ms is Some
                        &&& before.attempts@[a].record.finished_at_ms is None
                            ==> after.attempts@[a].record.finished_at_ms == Some(now)
                    } else {
                        after.attempts@[a] == before.attempts@[a]
                    }
                }
        }),
{
    super::lookup::lemma_own_run(before.runs@, j);
    assert(!held_by_agent(before, before.runs@[j]));
}

/// With a run that is cancelled at once its mirror's schedule is put in force anew only where the mirror
/// is in force on the run's node, at the moment that its configuration gives; else no schedule changes.
pub proof fn law_cancelling_puts_schedules_in_force_anew(
    before: Store,
    after: Store,
    run_id: Seq<char>,
    now: i64,
    rearm: spec_fn(Seq<char>, Result<Option<i64>, StoreError>) -> bool,
    result: CancellationApplyResult,
    j: int,
    m: int,
    g: int,
    k: int,
)
    requires
        before.wf(),
        cancellation_outcome(before, after, run_id, now, rearm, Ok(result)),
        0 <= j < before.runs@.len(),
        before.runs@[j].record.id@ == run_id,
        0 <= m < before.mirrors@.len(),
        before.mirrors@[m].name@ == before.runs@[j].record.mirror_name@,
        0 <= g < before.generations@.len(),
        before.generations@[g].mirror_name@ == before.mirrors@[m].name@,
        before.generations@[g].generation == before.mirrors@[m].current_generation,
        0 <= k < before.schedules@.len(),
    ensures
        after.schedules@.len() == before.schedules@.len(),
        before.schedules@[k].mirror_name@ != before.mirrors@[m].name@ ==> after.schedules@[k] == before.schedules@[k],
        !before.mirrors@[m].managed || !before.mirrors@[m].enabled || before.mirrors@[m].owner_node@
            != before.runs@[j].record.owner_node@ ==> after.schedules@[k] == before.schedules@[k],
        before.runs@[j].record.state == RunState::Succeeded || before.runs@[j].record.state == RunState::Failed
            || before.runs@[j].record.state == RunState::TimedOut || before.runs@[j].record.state
            == RunState::Cancelled ==> after == before,
        after.schedules@[k] == before.schedules@[k] || exists|moment: i64|
            #[trigger] answers(rearm, before.generations@[g].config_toml@, Ok(Some(moment))) && {
                &&& after.schedules@[k].runtime.next_due_at_ms == Some(moment)
                &&& after.schedules@[k].runtime.last_evaluated_at_ms == Some(now)
                &&& after.schedules@[k].runtime.catch_up_pending == false
                &&& after.schedules@[k].runtime.catch_up_since_ms is None
                &&& after.schedules@[k].schedule_hash == before.schedules@[k].schedule_hash
                &&& after.schedules@[k].mirror_name == before.schedules@[k].mirror_name
            },
{
    super::lookup::lemma_own_run(before.runs@, j);
    super::lookup::lemma_own_mirror(before.mirrors@, m);
    super::lookup::lemma_own_generation(before.generations@, g);
    super::lookup::lemma_own_schedule(before.schedules@, k);
    tables::lemma_schedule_index(before.schedules@, before.runs@[j].record.mirror_name@);
}

/// Only a run that is known is cancelled, and one that has ended stays as it is.
pub proof fn law_ended_and_unknown_runs_are_not_cancelled(
    before: Store,
    after: Store,
    run_id: Seq<char>,
    now: i64,
    rearm: spec_fn(Seq<char>, Result<Option<i64>, StoreError>) -> bool,
    r: Result<CancellationApplyResult, StoreError>,
)
    requires
        before.wf(),
        cancellation_outcome(before, after, run_id, now, rearm, r),
    ensures
        (forall|j: int| 0 <= j < before.runs@.len() ==> (#[trigger] before.runs@[j]).record.id@ != run_id) ==> after == before
            && r == Err::<CancellationApplyResult, StoreError>(StoreError::AttemptNotFound),
        forall|j: int|
            0 <= j < before.runs@.len() && (#[trigger] before.runs@[j]).record.id@ == run_id && (before.runs@[j].record.state
                == RunState::Succeeded || before.runs@[j].record.state == RunState::Failed || before.runs@[j].record.state
                == RunState::TimedOut || before.runs@[j].record.state == RunState::Cancelled) ==> after == before && r is Ok
                && r->Ok_0.newly_requested == false && r->Ok_0.run == before.runs@[j].record,
{
    tables::lemma_run_index(before.runs@, run_id);
    assert forall|j: int|
        0 <= j < before.runs@.len() && (#[trigger] before.runs@[j]).record.id@ == run_id implies tables::run_index(
        before.runs@,
        run_id,
    ) == Some(j) by {
        super::lookup::lemma_own_run(before.runs@, j);
    }
}

} // verus!
