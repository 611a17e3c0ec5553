//! Attempt events: what they change of an attempt, its run and the mirror's schedule.
use super::asked::answers;
use super::names;
use super::tables;
use super::tables::AttemptRow;
use super::tables::RunRow;
use super::tables::ScheduleRow;
use super::tables::Store;
use super::tables::StoreError;
use super::wellformed;
use crate::domain::schedule::RetryDecision;
use crate::domain::schedule::ScheduleRuntime;
use crate::domain::state;
use crate::domain::state::AttemptEvent;
use crate::domain::state::AttemptState;
use crate::domain::state::RunState;
use crate::text;
use vstd::prelude::*;

verus! {

/// What the end of an attempt is decided by.
#[derive(Debug, PartialEq, Eq)]
pub struct TerminalDecisionSource {
    pub outcome: AttemptState,
    pub attempt_no: u32,
    pub max_attempts: u32,
    pub retry_delay_ms: u64,
    pub cancel_requested: bool,
    pub mirror_eligible: bool,
    pub owner_unchanged: bool,
    pub mirror_name: String,
    pub current_config_toml: String,
}

/// What follows the end of an attempt.
#[derive(Clone, Copy, Debug, PartialEq, Eq)]
pub struct TerminalDecision {
    pub retry: RetryDecision,
    pub interval_next_due_at_ms: Option<i64>,
}

/// What became of an event.
#[derive(Clone, Copy, Debug, PartialEq, Eq, Structural)]
pub struct AttemptEventApplyResult {
    pub accepted_event_sequence: u64,
    pub newly_applied: bool,
    pub retry_scheduled: bool,
}

/// The attempt after an event: its latest state, failure and sequence; each moment as it was first
/// reported.
pub open spec fn attempt_after(before: AttemptRow, after: AttemptRow, event: AttemptEvent) -> bool {
    &&& text::opt_view(after.record.failure_kind) == names::failure_word(event.failure_kind)
    &&& after == (AttemptRow {
        record: tables::AttemptRecord {
            state: event.state,
            accepted_at_ms: state::either(before.record.accepted_at_ms, event.accepted_at_ms),
            started_at_ms: state::either(before.record.started_at_ms, event.started_at_ms),
            finished_at_ms: state::either(before.record.finished_at_ms, event.finished_at_ms),
            exit_code: event.exit_code,
            failure_kind: after.record.failure_kind,
            failure_message: event.failure_message,
            last_event_sequence: event.event_sequence,
            ..before.record
        },
        agent_instance_id: Some(event.agent_instance_id),
        ..before
    })
}

/// The run after an event that does not end its attempt: a pending run is running from then on.
pub open spec fn run_after_progress(before: RunRow, after: RunRow, event: AttemptEvent, now: i64) -> bool {
    let started = state::projection_of(event).run_started_at_ms;
    if state::projection_of(event).run_state == Some(RunState::Running) && before.record.state is Pending {
        after == (RunRow {
            record: tables::RunRecord {
                state: RunState::Running,
                started_at_ms: state::either(before.record.started_at_ms, Some(
                    if started is Some { started->0 } else { now },
                )),
                ..before.record
            },
            ..before
        })
    } else {
        after == before
    }
}

/// The run after an event that ends its attempt: a run that has not ended waits for its retry or
/// ends with the event; one that has ended stays as it is.
pub open spec fn run_after_end(
    before: RunRow,
    after: RunRow,
    event: AttemptEvent,
    now: i64,
    retry: RetryDecision,
) -> bool {
    let projection = state::projection_of(event);
    if before.record.state.terminal() {
        after == before
    } else {
        match retry {
            RetryDecision::Schedule { retry_due_at_ms } => after == (RunRow {
                record: tables::RunRecord {
                    state: RunState::Running,
                    started_at_ms: state::either(before.record.started_at_ms, projection.run_started_at_ms),
                    retry_due_at_ms: Some(retry_due_at_ms),
                    finished_at_ms: None,
                    final_exit_code: None,
                    failure_kind: None,
                    failure_message: None,
                    ..before.record
                },
                ..before
            }),
            RetryDecision::Final(run_state) => text::opt_view(after.record.failure_kind) == names::failure_word(
                event.failure_kind,
            ) && after == (RunRow {
                record: tables::RunRecord {
                    state: run_state,
                    started_at_ms: state::either(before.record.started_at_ms, projection.run_started_at_ms),
                    finished_at_ms: Some(
                        if projection.run_finished_at_ms is Some { projection.run_finished_at_ms->0 } else { now },
                    ),
                    retry_due_at_ms: None,
                    final_exit_code: event.exit_code,
                    failure_kind: after.record.failure_kind,
                    failure_message: event.failure_message,
                    ..before.record
                },
                ..before
            }),
        }
    }
}

/// The schedules with that of one mirror armed anew.
pub open spec fn schedules_rearmed(
    before: Seq<ScheduleRow>,
    mirror: Seq<char>,
    next_due: i64,
    now: i64,
) -> Seq<ScheduleRow> {
    match tables::schedule_index(before, mirror) {
        None => before,
        Some(i) => before.update(
            i,
            ScheduleRow {
                runtime: ScheduleRuntime {
                    next_due_at_ms: Some(next_due),
                    last_evaluated_at_ms: Some(now),
                    catch_up_pending: false,
                    catch_up_since_ms: None,
                },
                ..before[i]
            },
        ),
    }
}

/// The place of the run of attempt `i`.
pub open spec fn run_of(store: Store, i: int) -> int {
    tables::run_index(store.runs@, store.attempts@[i].record.run_id@)->0
}

/// True when the tables other than runs, attempts and schedules are the same.
pub open spec fn only_runs_change(before: Store, after: Store) -> bool {
    &&& after.revisions == before.revisions
    &&& after.mirrors == before.mirrors
    &&& after.generations == before.generations
    &&& after.nodes == before.nodes
    &&& after.credentials == before.credentials
    &&& after.logs == before.logs
}

/// The tables after an event of attempt `i` that is neither old nor refused.
pub open spec fn event_recorded(
    before: Store,
    after: Store,
    i: int,
    event: AttemptEvent,
    now: i64,
    decision: Option<TerminalDecision>,
) -> bool {
    let j = run_of(before, i);
    &&& only_runs_change(before, after)
    &&& after.attempts@ == before.attempts@.update(i, after.attempts@[i])
    &&& attempt_after(before.attempts@[i], after.attempts@[i], event)
    &&& after.runs@ == before.runs@.update(j, after.runs@[j])
    &&& match decision {
        None => run_after_progress(before.runs@[j], after.runs@[j], event, now) && after.schedules@
            == before.schedules@,
        Some(value) => {
            &&& run_after_end(before.runs@[j], after.runs@[j], event, now, value.retry)
            &&& after.schedules@ == (if value.retry is Final && value.interval_next_due_at_ms is Some {
                schedules_rearmed(
                    before.schedules@,
                    before.runs@[j].record.mirror_name@,
                    value.interval_next_due_at_ms->0,
                    now,
                )
            } else {
                before.schedules@
            })
        },
    }
}

/// What the end of attempt `i` is decided by: its run, and the mirror's current generation.
pub open spec fn source_matches(store: Store, i: int, outcome: AttemptState, source: TerminalDecisionSource) -> bool {
    let run = store.runs@[run_of(store, i)].record;
    let mirror = store.mirrors@[tables::mirror_index(store.mirrors@, run.mirror_name@)->0];
    &&& source.outcome == outcome
    &&& source.attempt_no == store.attempts@[i].record.attempt_no
    &&& source.max_attempts == run.max_attempts
    &&& source.retry_delay_ms == run.retry_delay_ms
    &&& source.cancel_requested == (run.cancel_requested_at_ms is Some)
    &&& source.mirror_eligible == (mirror.managed && mirror.enabled)
    &&& source.owner_unchanged == (mirror.owner_node@ == run.owner_node@)
    &&& source.mirror_name@ == run.mirror_name@
    &&& source.current_config_toml@ == store.generations@[tables::generation_index(
        store.generations@,
        mirror.name@,
        mirror.current_generation,
    )->0].config_toml@
}

/// What an event of an attempt comes to; `decide` says what follows the end of the attempt.
pub open spec fn event_outcome(
    before: Store,
    after: Store,
    run_id: Seq<char>,
    attempt_no: u32,
    event: AttemptEvent,
    now: i64,
    decide: spec_fn(TerminalDecisionSource, Result<TerminalDecision, StoreError>) -> bool,
    r: Result<AttemptEventApplyResult, StoreError>,
) -> bool {
    match tables::attempt_index(before.attempts@, run_id, attempt_no) {
        None => r == Err::<AttemptEventApplyResult, StoreError>(StoreError::AttemptNotFound) && after
            == before,
        Some(i) => {
            let current = before.attempts@[i].record;
            if event.event_sequence <= current.last_event_sequence {
                &&& after == before
                &&& r == Ok::<AttemptEventApplyResult, StoreError>(
                    (AttemptEventApplyResult {
                        accepted_event_sequence: current.last_event_sequence,
                        newly_applied: false,
                        retry_scheduled: false,
                    }),
                )
            } else if !state::event_admitted(current.state, event.state) {
                &&& after == before
                &&& r == Err::<AttemptEventApplyResult, StoreError>(
                    (StoreError::IllegalTransition { from: current.state, to: event.state }),
                )
            } else if !event.state.terminal() {
                &&& event_recorded(before, after, i, event, now, None)
                &&& r == Ok::<AttemptEventApplyResult, StoreError>(
                    (AttemptEventApplyResult {
                        accepted_event_sequence: event.event_sequence,
                        newly_applied: true,
                        retry_scheduled: false,
                    }),
                )
            } else {
                exists|source: TerminalDecisionSource, outcome: Result<TerminalDecision, StoreError>|
                    source_matches(before, i, event.state, source) && #[trigger] answers(
                        decide,
                        source,
                        outcome,
                    ) && match outcome {
                        Err(error) => after == before && r == Err::<
                            AttemptEventApplyResult,
                            StoreError,
                        >(error),
                        Ok(decision) => event_recorded(
                            before,
                            after,
                            i,
                            event,
                            now,
                            Some(decision),
                        ) && r == Ok::<AttemptEventApplyResult, StoreError>(
                            (AttemptEventApplyResult {
                                accepted_event_sequence: event.event_sequence,
                                newly_applied: true,
                                retry_scheduled: decision.retry is Schedule,
                            }),
                        ),
                    }
            }
        },
    }
}

fn first_moment(first: Option<i64>, second: Option<i64>) -> (r: Option<i64>)
    ensures
        r == state::either(first, second),
{
    match first {
        Some(value) => Some(value),
        None => second,
    }
}

/// Changing a run in place keeps the tables whole while its keys stay and it does not come back to
/// life.
pub proof fn lemma_run_updated_in_place(before: Seq<RunRow>, after: Seq<RunRow>, j: int)
    requires
        0 <= j < before.len(),
        after == before.update(j, after[j]),
        after[j].record.id == before[j].record.id,
        after[j].record.mirror_name == before[j].record.mirror_name,
        after[j].record.mirror_generation == before[j].record.mirror_generation,
        after[j].manual_request_id == before[j].manual_request_id,
        before[j].record.state.terminal() ==> after[j].record.state.terminal(),
    ensures
        wellformed::runs_unique(before) ==> wellformed::runs_unique(after),
        wellformed::requests_unique(before) ==> wellformed::requests_unique(after),
        wellformed::one_active_run(before) ==> wellformed::one_active_run(after),
        forall|mirrors: Seq<tables::MirrorRow>, generations: Seq<tables::GenerationRow>|
            wellformed::runs_have_mirrors(before, mirrors, generations) ==> #[trigger] wellformed::runs_have_mirrors(
                after,
                mirrors,
                generations,
            ),
        forall|attempts: Seq<AttemptRow>|
            wellformed::attempts_have_runs(attempts, before) ==> #[trigger] wellformed::attempts_have_runs(
                attempts,
                after,
            ),
        forall|attempts: Seq<AttemptRow>|
            wellformed::attempts_counted(attempts, before) && (after[j].attempt_count >= before[j].attempt_count
                || !tables::has_attempt(attempts, before[j].record.id@)) ==> #[trigger] wellformed::attempts_counted(
                attempts,
                after,
            ),
{
    assert forall|attempts: Seq<AttemptRow>|
        wellformed::attempts_counted(attempts, before) && (after[j].attempt_count >= before[j].attempt_count
            || !tables::has_attempt(attempts, before[j].record.id@)) implies #[trigger] wellformed::attempts_counted(
        attempts,
        after,
    ) by {
        assert forall|x: int, y: int|
            0 <= x < attempts.len() && 0 <= y < after.len() && (#[trigger] attempts[x]).record.run_id@ == (
            #[trigger] after[y]).record.id@ implies attempts[x].record.attempt_no <= after[y].attempt_count by {
            assert(attempts[x].record.run_id@ == before[y].record.id@);
        }
    }
    assert forall|attempts: Seq<AttemptRow>| wellformed::attempts_have_runs(attempts, before) implies
        #[trigger] wellformed::attempts_have_runs(attempts, after) by {
        assert forall|k: int| 0 <= k < attempts.len() implies wellformed::has_run(
            after,
            (#[trigger] attempts[k]).record.run_id@,
        ) by {
            assert(wellformed::has_run(before, attempts[k].record.run_id@));
            let w = choose|w: int|
                0 <= w < before.len() && (#[trigger] before[w]).record.id@ == attempts[k].record.run_id@;
            assert(after[w].record.id@ == attempts[k].record.run_id@);
        }
    }
}

/// Changing an attempt in place keeps the tables whole while its keys stay.
pub proof fn lemma_attempt_updated_in_place(before: Seq<AttemptRow>, after: Seq<AttemptRow>, i: int)
    requires
        0 <= i < before.len(),
        after == before.update(i, after[i]),
        after[i].record.run_id == before[i].record.run_id,
        after[i].record.attempt_no == before[i].record.attempt_no,
    ensures
        wellformed::attempts_unique(before) ==> wellformed::attempts_unique(after),
        forall|runs: Seq<RunRow>|
            wellformed::attempts_have_runs(before, runs) ==> #[trigger] wellformed::attempts_have_runs(after, runs),
        forall|runs: Seq<RunRow>|
            wellformed::attempts_counted(before, runs) ==> #[trigger] wellformed::attempts_counted(after, runs),
{
    assert forall|runs: Seq<RunRow>| wellformed::attempts_counted(before, runs) implies
        #[trigger] wellformed::attempts_counted(after, runs) by {
        assert forall|x: int, y: int|
            0 <= x < after.len() && 0 <= y < runs.len() && (#[trigger] after[x]).record.run_id@ == (
            #[trigger] runs[y]).record.id@ implies after[x].record.attempt_no <= runs[y].attempt_count by {
            assert(before[x].record.run_id@ == runs[y].record.id@);
        }
    }
    assert forall|runs: Seq<RunRow>| wellformed::attempts_have_runs(before, runs) implies
        #[trigger] wellformed::attempts_have_runs(after, runs) by {
        assert forall|k: int| 0 <= k < after.len() implies wellformed::has_run(
            runs,
            (#[trigger] after[k]).record.run_id@,
        ) by {
            assert(wellformed::has_run(runs, before[k].record.run_id@));
        }
    }
}

/// Changing a schedule in place keeps the tables whole while its mirror stays.
pub proof fn lemma_schedule_updated_in_place(before: Seq<ScheduleRow>, after: Seq<ScheduleRow>, i: int)
    requires
        0 <= i < before.len(),
        after == before.update(i, after[i]),
        after[i].mirror_name == before[i].mirror_name,
    ensures
        wellformed::schedules_unique(before) ==> wellformed::schedules_unique(after),
        forall|mirrors: Seq<tables::MirrorRow>|
            wellformed::schedules_have_mirrors(before, mirrors) ==> #[trigger] wellformed::schedules_have_mirrors(
                after,
                mirrors,
            ),
{
    assert forall|mirrors: Seq<tables::MirrorRow>| wellformed::schedules_have_mirrors(before, mirrors) implies
        #[trigger] wellformed::schedules_have_mirrors(after, mirrors) by {
        assert forall|k: int| 0 <= k < after.len() implies wellformed::has_mirror(
            mirrors,
            (#[trigger] after[k]).mirror_name@,
        ) by {
            assert(wellformed::has_mirror(mirrors, before[k].mirror_name@));
        }
    }
}

impl Store {
    /// Arms the schedule of a mirror anew.
    pub(crate) fn rearm_schedule(&mut self, mirror: &str, next_due: i64, now: i64)
        requires
            old(self).wf(),
        ensures
            final(self).wf(),
            only_runs_change(*old(self), *final(self)),
            final(self).runs == old(self).runs,
            final(self).attempts == old(self).attempts,
            final(self).schedules@ == schedules_rearmed(old(self).schedules@, mirror@, next_due, now),
    {
        if let Some(i) = tables::find_schedule(&self.schedules, mirror) {
            let ghost before = self.schedules@;
            let row: &mut ScheduleRow = &mut self.schedules[i];
            row.runtime = ScheduleRuntime {
                next_due_at_ms: Some(next_due),
                last_evaluated_at_ms: Some(now),
                catch_up_pending: false,
                catch_up_since_ms: None,
            };
            proof {
                lemma_schedule_updated_in_place(before, self.schedules@, i as int);
            }
        }
    }
}

impl Store {
    /// What the end of an attempt is decided by.
    fn terminal_source(&self, i: usize, outcome: AttemptState) -> (r: TerminalDecisionSource)
        requires
            self.wf(),
            i < self.attempts@.len(),
        ensures
            source_matches(*self, i as int, outcome, r),
    {
        let attempt: &AttemptRow = &self.attempts[i];
        proof {
            assert(wellformed::has_run(self.runs@, attempt.record.run_id@));
            tables::lemma_run_index(self.runs@, attempt.record.run_id@);
        }
        let j: usize = tables::find_run(&self.runs, attempt.record.run_id.as_str()).unwrap();
        let run: &tables::RunRecord = &self.runs[j].record;
        proof {
            assert(wellformed::has_mirror(self.mirrors@, run.mirror_name@));
            tables::lemma_mirror_index(self.mirrors@, run.mirror_name@);
        }
        let m: usize = tables::find_mirror(&self.mirrors, run.mirror_name.as_str()).unwrap();
        let mirror: &tables::MirrorRow = &self.mirrors[m];
        proof {
            assert(wellformed::has_generation(self.generations@, mirror.name@, mirror.current_generation));
            tables::lemma_generation_index(self.generations@, mirror.name@, mirror.current_generation);
        }
        let g: usize = tables::find_generation(
            &self.generations,
            mirror.name.as_str(),
            mirror.current_generation,
        ).unwrap();
        TerminalDecisionSource {
            outcome,
            attempt_no: attempt.record.attempt_no,
            max_attempts: run.max_attempts,
            retry_delay_ms: run.retry_delay_ms,
            cancel_requested: run.cancel_requested_at_ms.is_some(),
            mirror_eligible: mirror.managed && mirror.enabled,
            owner_unchanged: text::same(mirror.owner_node.as_str(), run.owner_node.as_str()),
            mirror_name: run.mirror_name.clone(),
            current_config_toml: self.generations[g].config_toml.clone(),
        }
    }

    /// Records an event of attempt `i`, given the decision where the event ends the attempt.
    pub fn record_event(&mut self, i: usize, event: &AttemptEvent, now: i64, decision: Option<TerminalDecision>)
        requires
            old(self).wf(),
            i < old(self).attempts@.len(),
            decision is Some <==> event.state.terminal(),
            decision is Some && decision->0.retry is Final ==> decision->0.retry->Final_0.terminal(),
        ensures
            final(self).wf(),
            event_recorded(*old(self), *final(self), i as int, *event, now, decision),
    {
        let ghost start = *self;
        proof {
            assert(wellformed::has_run(self.runs@, self.attempts@[i as int].record.run_id@));
            tables::lemma_run_index(self.runs@, self.attempts@[i as int].record.run_id@);
        }
        let j: usize = tables::find_run(&self.runs, self.attempts[i].record.run_id.as_str()).unwrap();
        let mirror: String = self.runs[j].record.mirror_name.clone();
        let row: &mut AttemptRow = &mut self.attempts[i];
        row.record.state = event.state;
        row.record.last_event_sequence = event.event_sequence;
        row.agent_instance_id = Some(event.agent_instance_id.clone());
        row.record.accepted_at_ms = first_moment(row.record.accepted_at_ms, event.accepted_at_ms);
        row.record.started_at_ms = first_moment(row.record.started_at_ms, event.started_at_ms);
        row.record.finished_at_ms = first_moment(row.record.finished_at_ms, event.finished_at_ms);
        row.record.exit_code = event.exit_code;
        row.record.failure_kind = names::failure_text(event.failure_kind);
        row.record.failure_message = text::clone_opt(&event.failure_message);
        proof {
            assert(self.attempts@ == start.attempts@.update(i as int, self.attempts@[i as int]));
            lemma_attempt_updated_in_place(start.attempts@, self.attempts@, i as int);
        }
        let active: bool = matches!(event.state, AttemptState::Accepted | AttemptState::Running);
        let run_started_at_ms: Option<i64> = if active {
            first_moment(event.accepted_at_ms, event.started_at_ms)
        } else {
            first_moment(event.started_at_ms, event.accepted_at_ms)
        };
        match decision {
            None => {
                if active && self.runs[j].record.state == RunState::Pending {
                    let moment: i64 = match run_started_at_ms {
                        Some(value) => value,
                        None => now,
                    };
                    let run: &mut RunRow = &mut self.runs[j];
                    run.record.state = RunState::Running;
                    run.record.started_at_ms = first_moment(run.record.started_at_ms, Some(moment));
                }
                proof {
                    assert(self.runs@ == start.runs@.update(j as int, self.runs@[j as int]));
                    lemma_run_updated_in_place(start.runs@, self.runs@, j as int);
                }
            },
            Some(value) => {
                if !self.runs[j].record.state.is_terminal() {
                    match value.retry {
                        RetryDecision::Schedule { retry_due_at_ms } => {
                            let run: &mut RunRow = &mut self.runs[j];
                            run.record.state = RunState::Running;
                            run.record.started_at_ms = first_moment(run.record.started_at_ms, run_started_at_ms);
                            run.record.retry_due_at_ms = Some(retry_due_at_ms);
                            run.record.finished_at_ms = None;
                            run.record.final_exit_code = None;
                            run.record.failure_kind = None;
                            run.record.failure_message = None;
                        },
                        RetryDecision::Final(run_state) => {
                            let moment: i64 = match event.finished_at_ms {
                                Some(value) => value,
                                None => now,
                            };
                            let run: &mut RunRow = &mut self.runs[j];
                            run.record.state = run_state;
                            run.record.started_at_ms = first_moment(run.record.started_at_ms, run_started_at_ms);
                            run.record.finished_at_ms = Some(moment);
                            run.record.retry_due_at_ms = None;
                            run.record.final_exit_code = event.exit_code;
                            run.record.failure_kind = names::failure_text(event.failure_kind);
                            run.record.failure_message = text::clone_opt(&event.failure_message);
                        },
                    }
                }
                proof {
                    assert(self.runs@ == start.runs@.update(j as int, self.runs@[j as int]));
                    lemma_run_updated_in_place(start.runs@, self.runs@, j as int);
                }
                if let RetryDecision::Final(_) = value.retry {
                    if let Some(next_due) = value.interval_next_due_at_ms {
                        self.rearm_schedule(mirror.as_str(), next_due, now);
                    }
                }
            },
        }
    }

    /// Takes an event of an attempt. An unknown attempt and a refused transition change nothing, and
    /// neither does an event that is not newer than the last; `decide` is asked what follows only where
    /// the event ends the attempt.
    pub fn apply_event<F: FnOnce(TerminalDecisionSource, i64) -> Result<TerminalDecision, StoreError>>(
        &mut self,
        run_id: &str,
        attempt_no: u32,
        event: &AttemptEvent,
        now: i64,
        decide: F,
    ) -> (r: Result<AttemptEventApplyResult, StoreError>)
        requires
            old(self).wf(),
            forall|source: TerminalDecisionSource| #[trigger] call_requires(decide, (source, now)),
            forall|source: TerminalDecisionSource, decision: TerminalDecision| #[trigger]
                call_ensures(decide, (source, now), Ok::<TerminalDecision, StoreError>(decision))
                    && decision.retry is Final ==> decision.retry->Final_0.terminal(),
        ensures
            final(self).wf(),
            event_outcome(
                *old(self),
                *final(self),
                run_id@,
                attempt_no,
                *event,
                now,
                |source: TerminalDecisionSource, outcome: Result<TerminalDecision, StoreError>|
                    call_ensures(decide, (source, now), outcome),
                r,
            ),
    {
        let i: usize = match tables::find_attempt(&self.attempts, run_id, attempt_no) {
            None => {
                return Err(StoreError::AttemptNotFound);
            },
            Some(found) => found,
        };
        let current: AttemptState = self.attempts[i].record.state;
        let sequence: u64 = self.attempts[i].record.last_event_sequence;
        if event.event_sequence <= sequence {
            return Ok(
                AttemptEventApplyResult {
                    accepted_event_sequence: sequence,
                    newly_applied: false,
                    retry_scheduled: false,
                },
            );
        }
        if let Err(error) = state::project_attempt_event(current, event) {
            return Err(StoreError::IllegalTransition { from: error.from, to: error.to });
        }
        let mut retry_scheduled: bool = false;
        let decision: Option<TerminalDecision> = if event.state.is_terminal() {
            let source: TerminalDecisionSource = self.terminal_source(i, event.state);
            let ghost asked = source;
            let outcome: Result<TerminalDecision, StoreError> = decide(source, now);
            proof {
                let answerer = |source: TerminalDecisionSource, outcome: Result<TerminalDecision, StoreError>|
                    call_ensures(decide, (source, now), outcome);
                assert(answers(answerer, asked, outcome));
            }
            match outcome {
                Err(error) => {
                    return Err(error);
                },
                Ok(value) => {
                    retry_scheduled = matches!(value.retry, RetryDecision::Schedule { .. });
                    Some(value)
                },
            }
        } else {
            None
        };
        self.record_event(i, event, now, decision);
        Ok(
            AttemptEventApplyResult {
                accepted_event_sequence: event.event_sequence,
                newly_applied: true,
                retry_scheduled,
            },
        )
    }
}

/// A terminal run never changes, whatever is reported of its attempts.
pub proof fn law_ended_runs_stay(
    before: Store,
    after: Store,
    i: int,
    event: AttemptEvent,
    now: i64,
    decision: Option<TerminalDecision>,
)
    requires
        0 <= i < before.attempts@.len(),
        before.wf(),
        event_recorded(before, after, i, event, now, decision),
        before.runs@[run_of(before, i)].record.state.terminal(),
    ensures
        after.runs@ == before.runs@,
{
    assert(wellformed::has_run(before.runs@, before.attempts@[i].record.run_id@));
    tables::lemma_run_index(before.runs@, before.attempts@[i].record.run_id@);
    let j = run_of(before, i);
    assert(after.runs@ =~= before.runs@);
}

/// A retry stays in its run: no run is added, and the run waits for its next attempt.
pub proof fn law_retry_stays_in_the_run(
    before: Store,
    after: Store,
    i: int,
    event: AttemptEvent,
    now: i64,
    decision: TerminalDecision,
)
    requires
        0 <= i < before.attempts@.len(),
        before.wf(),
        event_recorded(before, after, i, event, now, Some(decision)),
        decision.retry is Schedule,
        !before.runs@[run_of(before, i)].record.state.terminal(),
    ensures
        after.runs@.len() == before.runs@.len(),
        after.runs@[run_of(before, i)].record.id == before.runs@[run_of(before, i)].record.id,
        after.runs@[run_of(before, i)].record.state is Running,
        after.runs@[run_of(before, i)].record.retry_due_at_ms == Some(decision.retry->retry_due_at_ms),
        after.runs@[run_of(before, i)].record.finished_at_ms is None,
{
    assert(wellformed::has_run(before.runs@, before.attempts@[i].record.run_id@));
    tables::lemma_run_index(before.runs@, before.attempts@[i].record.run_id@);
}

/// Reporting an event twice is reporting it once: after it is recorded, its sequence is the last.
pub proof fn law_recorded_event_is_old(
    before: Store,
    after: Store,
    i: int,
    event: AttemptEvent,
    now: i64,
    decision: Option<TerminalDecision>,
)
    requires
        0 <= i < before.attempts@.len(),
        event_recorded(before, after, i, event, now, decision),
    ensures
        after.attempts@[i].record.last_event_sequence == event.event_sequence,
        after.attempts@[i].record.state == event.state,
        after.attempts@[i].record.run_id == before.attempts@[i].record.run_id,
        after.attempts@[i].record.attempt_no == before.attempts@[i].record.attempt_no,
{
}

/// An event that is not newer than the last one of its attempt changes nothing and is answered with the
/// last one; a newer one that the attempt's state does not allow is refused and changes nothing; and of
/// an attempt that is not known nothing is taken.
pub proof fn law_events_are_taken_once_and_in_order(
    before: Store,
    after: Store,
    run_id: Seq<char>,
    attempt_no: u32,
    event: AttemptEvent,
    now: i64,
    decide: spec_fn(TerminalDecisionSource, Result<TerminalDecision, StoreError>) -> bool,
    r: Result<AttemptEventApplyResult, StoreError>,
    i: int,
)
    requires
        before.wf(),
        event_outcome(before, after, run_id, attempt_no, event, now, decide, r),
        0 <= i < before.attempts@.len(),
        before.attempts@[i].record.run_id@ == run_id,
        before.attempts@[i].record.attempt_no == attempt_no,
    ensures
        ({
            let current = before.attempts@[i].record;
            &&& event.event_sequence <= current.last_event_sequence ==> after == before && r == Ok::<
                AttemptEventApplyResult,
                StoreError,
            >(
                AttemptEventApplyResult {
                    accepted_event_sequence: current.last_event_sequence,
                    newly_applied: false,
                    retry_scheduled: false,
                },
            )
            &&& event.event_sequence > current.last_event_sequence && !state::event_admitted(current.state, event.state)
                ==> after == before && r == Err::<AttemptEventApplyResult, StoreError>(
                StoreError::IllegalTransition { from: current.state, to: event.state },
            )
            &&& event.event_sequence > current.last_event_sequence && r is Ok ==> r->Ok_0.newly_applied
                && r->Ok_0.accepted_event_sequence == event.event_sequence
            &&& r is Err ==> after == before
            &&& r != Err::<AttemptEventApplyResult, StoreError>(StoreError::AttemptNotFound) || event.state.terminal()
        }),
{
    super::lookup::lemma_own_attempt(before.attempts@, i);
}

/// An event of an attempt that is not known is refused.
pub proof fn law_events_of_unknown_attempts_are_refused(
    before: Store,
    after: Store,
    run_id: Seq<char>,
    attempt_no: u32,
    event: AttemptEvent,
    now: i64,
    decide: spec_fn(TerminalDecisionSource, Result<TerminalDecision, StoreError>) -> bool,
    r: Result<AttemptEventApplyResult, StoreError>,
)
    requires
        event_outcome(before, after, run_id, attempt_no, event, now, decide, r),
        forall|i: int|
            0 <= i < before.attempts@.len() ==> !((#[trigger] before.attempts@[i]).record.run_id@ == run_id
                && before.attempts@[i].record.attempt_no == attempt_no),
    ensures
        after == before,
        r == Err::<AttemptEventApplyResult, StoreError>(StoreError::AttemptNotFound),
{
    tables::lemma_attempt_index(before.attempts@, run_id, attempt_no);
}

/// An event that is taken is what is known of its attempt from then on: the state, what it ended with
/// and who reported it are those of the event, a moment is the one that was reported first, and nothing
/// of any other attempt changes.
pub proof fn law_attempts_are_as_last_reported(
    before: Store,
    after: Store,
    run_id: Seq<char>,
    attempt_no: u32,
    event: AttemptEvent,
    now: i64,
    decide: spec_fn(TerminalDecisionSource, Result<TerminalDecision, StoreError>) -> bool,
    result: AttemptEventApplyResult,
    i: int,
)
    requires
        before.wf(),
        event_outcome(before, after, run_id, attempt_no, event, now, decide, Ok(result)),
        0 <= i < before.attempts@.len(),
        before.attempts@[i].record.run_id@ == run_id,
        before.attempts@[i].record.attempt_no == attempt_no,
        event.event_sequence > before.attempts@[i].record.last_event_sequence,
    ensures
        ({
            let was = before.attempts@[i];
            let is = after.attempts@[i];
            &&& is.record.state == event.state
            &&& is.record.last_event_sequence == event.event_sequence
            &&& is.record.exit_code == event.exit_code
            &&& is.record.failure_message == event.failure_message
            &&& is.record.failure_kind is Some <==> event.failure_kind is Some
            &&& is.agent_instance_id == Some(event.agent_instance_id)
            &&& was.record.accepted_at_ms is Some ==> is.record.accepted_at_ms == was.record.accepted_at_ms
            &&& was.record.accepted_at_ms is None ==> is.record.accepted_at_ms == event.accepted_at_ms
            &&& was.record.started_at_ms is Some ==> is.record.started_at_ms == was.record.started_at_ms
            &&& was.record.started_at_ms is None ==> is.record.started_at_ms == event.started_at_ms
            &&& was.record.finished_at_ms is Some ==> is.record.finished_at_ms == was.record.finished_at_ms
            &&& was.record.finished_at_ms is None ==> is.record.finished_at_ms == event.finished_at_ms
            &&& is.record.run_id == was.record.run_id
            &&& is.record.attempt_no == was.record.attempt_no
            &&& is.record.spec_hash == was.record.spec_hash
            &&& is.record.spec_json == was.record.spec_json
            &&& is.record.created_at_ms == was.record.created_at_ms
            &&& is.dispatch_count == was.dispatch_count
            &&& is.last_dispatch_at_ms == was.last_dispatch_at_ms
            &&& after.attempts@.len() == before.attempts@.len()
            &&& forall|o: int|
                0 <= o < before.attempts@.len() && o != i ==> #[trigger] after.attempts@[o] == before.attempts@[o]
            &&& after.mirrors == before.mirrors
            &&& after.generations == before.generations
            &&& after.nodes == before.nodes
            &&& after.logs == before.logs
        }),
{
    super::lookup::lemma_own_attempt(before.attempts@, i);
}

/// A run that has not begun runs from the first report of its attempt on; a report that does not end the
/// attempt changes nothing else of any run, and no schedule.
pub proof fn law_runs_begin_with_their_first_report(
    before: Store,
    after: Store,
    run_id: Seq<char>,
    attempt_no: u32,
    event: AttemptEvent,
    now: i64,
    decide: spec_fn(TerminalDecisionSource, Result<TerminalDecision, StoreError>) -> bool,
    result: AttemptEventApplyResult,
    i: int,
    j: int,
)
    requires
        before.wf(),
        event_outcome(before, after, run_id, attempt_no, event, now, decide, Ok(result)),
        0 <= i < before.attempts@.len(),
        before.attempts@[i].record.run_id@ == run_id,
        before.attempts@[i].record.attempt_no == attempt_no,
        event.event_sequence > before.attempts@[i].record.last_event_sequence,
        event.state == AttemptState::Accepted || event.state == AttemptState::Running,
        0 <= j < before.runs@.len(),
        before.runs@[j].record.id@ == run_id,
    ensures
        ({
            let was = before.runs@[j].record;
            let is = after.runs@[j].record;
            &&& was.state == RunState::Pending ==> is.state == RunState::Running && is.started_at_ms is Some
            &&& was.state == RunState::Pending && was.started_at_ms is None && event.accepted_at_ms is Some
                ==> is.started_at_ms == event.accepted_at_ms
            &&& was.state == RunState::Pending && was.started_at_ms is None && event.accepted_at_ms is None
                && event.started_at_ms is Some ==> is.started_at_ms == event.started_at_ms
            &&& was.state == RunState::Pending && was.started_at_ms is None && event.accepted_at_ms is None
                && event.started_at_ms is None ==> is.started_at_ms == Some(now)
            &&& was.started_at_ms is Some ==> is.started_at_ms == was.started_at_ms
            &&& was.state != RunState::Pending ==> after.runs@[j] == before.runs@[j]
            &&& is.finished_at_ms == was.finished_at_ms
            &&& is.retry_due_at_ms == was.retry_due_at_ms
            &&& is.max_attempts == was.max_attempts
            &&& is.cancel_requested_at_ms == was.cancel_requested_at_ms
            &&& after.runs@.len() == before.runs@.len()
            &&& forall|o: int| 0 <= o < before.runs@.len() && o != j ==> #[trigger] after.runs@[o] == before.runs@[o]
            &&& after.schedules@ == before.schedules@
            &&& !result.retry_scheduled
        }),
{
    super::lookup::lemma_own_attempt(before.attempts@, i);
    super::lookup::lemma_own_run(before.runs@, j);
}

/// What the end of an attempt is decided by is what the tables hold of its run and its mirror.
pub proof fn law_ends_are_decided_by_the_tables(
    before: Store,
    after: Store,
    run_id: Seq<char>,
    attempt_no: u32,
    event: AttemptEvent,
    now: i64,
    decide: spec_fn(TerminalDecisionSource, Result<TerminalDecision, StoreError>) -> bool,
    result: AttemptEventApplyResult,
    i: int,
    j: int,
    m: int,
    g: int,
)
    requires
        before.wf(),
        event_outcome(before, after, run_id, attempt_no, event, now, decide, Ok(result)),
        0 <= i < before.attempts@.len(),
        before.attempts@[i].record.run_id@ == run_id,
        before.attempts@[i].record.attempt_no == attempt_no,
        event.event_sequence > before.attempts@[i].record.last_event_sequence,
        event.state.terminal(),
        0 <= j < before.runs@.len(),
        before.runs@[j].record.id@ == run_id,
        0 <= m < before.mirrors@.len(),
        before.mirrors@[m].name@ == before.runs@[j].record.mirror_name@,
        0 <= g < before.generations@.len(),
        before.generations@[g].mirror_name@ == before.mirrors@[m].name@,
        before.generations@[g].generation == before.mirrors@[m].current_generation,
    ensures
        exists|source: TerminalDecisionSource, decision: TerminalDecision|
            #[trigger] answers(decide, source, Ok(decision)) && {
                let was = before.runs@[j].record;
                let is = after.runs@[j].record;
                &&& source.outcome == event.state
                &&& source.attempt_no == attempt_no
                &&& source.max_attempts == was.max_attempts
                &&& source.retry_delay_ms == was.retry_delay_ms
                &&& source.cancel_requested == (was.cancel_requested_at_ms is Some)
                &&& source.mirror_eligible == (before.mirrors@[m].managed && before.mirrors@[m].enabled)
                &&& source.owner_unchanged == (before.mirrors@[m].owner_node@ == was.owner_node@)
                &&& source.mirror_name@ == was.mirror_name@
                &&& source.current_config_toml@ == before.generations@[g].config_toml@
                &&& result.retry_scheduled == (decision.retry is Schedule)
                &&& was.state != RunState::Pending && was.state != RunState::Running ==> after.runs@[j] == before.runs@[j]
                &&& was.state == RunState::Pending || was.state == RunState::Running ==> {
                    &&& decision.retry is Schedule ==> is.state == RunState::Running && is.retry_due_at_ms == Some(
                        decision.retry->retry_due_at_ms,
                    ) && is.finished_at_ms is None && is.final_exit_code is None && is.failure_kind is None
                        && is.failure_message is None
                    &&& decision.retry is Final ==> is.state == decision.retry->Final_0 && is.retry_due_at_ms is None
                        && is.final_exit_code == event.exit_code && is.failure_message == event.failure_message
                        && is.finished_at_ms == (match event.finished_at_ms {
                        Some(at) => Some(at),
                        None => Some(now),
                    }) && (is.failure_kind is Some <==> event.failure_kind is Some)
                    &&& was.started_at_ms is Some ==> is.started_at_ms == was.started_at_ms
                    &&& is.id == was.id && is.mirror_name == was.mirror_name && is.owner_node == was.owner_node
                        && is.max_attempts == was.max_attempts && is.retry_delay_ms == was.retry_delay_ms
                        && is.cancel_requested_at_ms == was.cancel_requested_at_ms && is.trigger == was.trigger
                        && is.created_at_ms == was.created_at_ms
                }
                &&& after.runs@.len() == before.runs@.len()
                &&& forall|o: int| 0 <= o < before.runs@.len() && o != j ==> #[trigger] after.runs@[o] == before.runs@[o]
                &&& decision.retry is Schedule || decision.interval_next_due_at_ms is None ==> after.schedules@
                    == before.schedules@
                &&& decision.retry is Final && decision.interval_next_due_at_ms is Some ==> forall|k: int|
                    0 <= k < before.schedules@.len() ==> if before.schedules@[k].mirror_name@ == was.mirror_name@ {
                        &&& (#[trigger] after.schedules@[k]).mirror_name == before.schedules@[k].mirror_name
                        &&& after.schedules@[k].schedule_hash == before.schedules@[k].schedule_hash
                        &&& after.schedules@[k].runtime.next_due_at_ms == decision.interval_next_due_at_ms
                        &&& after.schedules@[k].runtime.last_evaluated_at_ms == Some(now)
                        &&& after.schedules@[k].runtime.catch_up_pending == false
                        &&& after.schedules@[k].runtime.catch_up_since_ms is None
                    } else {
                        after.schedules@[k] == before.schedules@[k]
                    }
            },
{
    super::lookup::lemma_own_attempt(before.attempts@, i);
    super::lookup::lemma_own_run(before.runs@, j);
    super::lookup::lemma_own_mirror(before.mirrors@, m);
    super::lookup::lemma_own_generation(before.generations@, g);
    let (source, outcome) = choose|source: TerminalDecisionSource, outcome: Result<TerminalDecision, StoreError>|
        source_matches(before, i, event.state, source) && #[trigger] answers(decide, source, outcome) && match outcome {
            Err(error) => after == before && Ok::<AttemptEventApplyResult, StoreError>(result) == Err::<
                AttemptEventApplyResult,
                StoreError,
            >(error),
            Ok(decision) => event_recorded(before, after, i, event, now, Some(decision)) && Ok::<
                AttemptEventApplyResult,
                StoreError,
            >(result) == Ok::<AttemptEventApplyResult, StoreError>(
                (AttemptEventApplyResult {
                    accepted_event_sequence: event.event_sequence,
                    newly_applied: true,
                    retry_scheduled: decision.retry is Schedule,
                }),
            ),
        };
    let decision = outcome->Ok_0;
    assert(answers(decide, source, Ok(decision)));
    tables::lemma_schedule_index(before.schedules@, before.runs@[j].record.mirror_name@);
    assert forall|k: int| 0 <= k < before.schedules@.len() && before.schedules@[k].mirror_name@
        == before.runs@[j].record.mirror_name@ implies #[trigger] tables::schedule_index(
        before.schedules@,
        before.schedules@[k].mirror_name@,
    ) == Some(k) by {
        super::lookup::lemma_own_schedule(before.schedules@, k);
    }
    assert forall|k: int|
        decision.retry is Final && decision.interval_next_due_at_ms is Some && 0 <= k < before.schedules@.len() implies if before.schedules@[k].mirror_name@
        == before.runs@[j].record.mirror_name@ {
        &&& (#[trigger] after.schedules@[k]).mirror_name == before.schedules@[k].mirror_name
        &&& after.schedules@[k].schedule_hash == before.schedules@[k].schedule_hash
        &&& after.schedules@[k].runtime.next_due_at_ms == decision.interval_next_due_at_ms
        &&& after.schedules@[k].runtime.last_evaluated_at_ms == Some(now)
        &&& after.schedules@[k].runtime.catch_up_pending == false
        &&& after.schedules@[k].runtime.catch_up_since_ms is None
    } else {
        after.schedules@[k] == before.schedules@[k]
    } by {
        if before.schedules@[k].mirror_name@ == before.runs@[j].record.mirror_name@ {
            assert(tables::schedule_index(before.schedules@, before.schedules@[k].mirror_name@) == Some(k));
        }
    }
}

} // verus!
