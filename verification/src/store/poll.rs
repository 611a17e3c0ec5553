//! Polling: hands a node its next action and records it.
use super::asked::answers;
use super::dispatch::cancellable;
use super::dispatch::is_next;
use super::dispatch::manual_ready;
use super::dispatch::redeliverable;
use super::dispatch::retry_ready;
use super::dispatch::schedule_ready;
use super::dispatch::scheduled_mirror;
use super::dispatch::CompiledAttempt;
use super::dispatch::DispatchSource;
use super::dispatch::PollAction;
use super::dispatch::PollChoice;
use super::dispatch::RunPolicySnapshot;
use super::events;
use super::lookup;
use super::tables;
use super::tables::AttemptRecord;
use super::tables::AttemptRow;
use super::tables::MirrorRow;
use super::tables::RunRecord;
use super::tables::RunRow;
use super::tables::ScheduleRow;
use super::tables::Store;
use super::tables::StoreError;
use super::wellformed;
use crate::domain::ids::RunId;
use crate::domain::schedule::RunTrigger;
use crate::domain::schedule::ScheduleRuntime;
use crate::domain::state::AttemptState;
use crate::domain::state::RunState;
use crate::text;
use vstd::prelude::*;

verus! {

/// An attempt that is handed out for the first time.
pub open spec fn attempt_queued(run_id: String, attempt_no: u32, compiled: CompiledAttempt, now: i64) -> AttemptRow {
    AttemptRow {
        record: AttemptRecord {
            run_id,
            attempt_no,
            state: AttemptState::Queued,
            spec_hash: compiled.spec_hash,
            spec_json: compiled.spec_json,
            created_at_ms: now,
            accepted_at_ms: None,
            started_at_ms: None,
            finished_at_ms: None,
            exit_code: None,
            failure_kind: None,
            failure_message: None,
            last_event_sequence: 0,
        },
        agent_instance_id: None,
        dispatch_count: 1,
        last_dispatch_at_ms: Some(now),
    }
}

/// A run whose next attempt is handed out: a scheduled run takes its limits from what was compiled.
pub open spec fn run_dispatched(run: RunRow, attempt_no: u32, policy: RunPolicySnapshot) -> RunRow {
    RunRow {
        record: RunRecord {
            max_attempts: if run.record.trigger is Scheduled {
                policy.max_attempts
            } else {
                run.record.max_attempts
            },
            retry_delay_ms: if run.record.trigger is Scheduled {
                policy.retry_delay_ms
            } else {
                run.record.retry_delay_ms
            },
            retry_due_at_ms: None,
            ..run.record
        },
        attempt_count: attempt_no,
        ..run
    }
}

/// The run that is made of a waiting schedule.
pub open spec fn run_scheduled(id: String, mirror: MirrorRow, since_ms: i64, now: i64) -> RunRow {
    RunRow {
        record: RunRecord {
            id,
            mirror_name: mirror.name,
            mirror_generation: mirror.current_generation,
            owner_node: mirror.owner_node,
            trigger: RunTrigger::Scheduled,
            state: RunState::Pending,
            created_at_ms: now,
            started_at_ms: None,
            finished_at_ms: None,
            final_exit_code: None,
            failure_kind: None,
            failure_message: None,
            max_attempts: 1,
            retry_delay_ms: 0,
            scheduled_for_at_ms: Some(since_ms),
            retry_due_at_ms: None,
            cancel_requested_at_ms: None,
        },
        attempt_count: 0,
        manual_request_id: None,
    }
}

/// A schedule that no longer waits.
pub open spec fn intent_cleared(row: ScheduleRow) -> ScheduleRow {
    ScheduleRow {
        runtime: ScheduleRuntime { catch_up_pending: false, catch_up_since_ms: None, ..row.runtime },
        ..row
    }
}

/// What the next attempt of the chosen row is compiled from.
pub open spec fn source_is(s: Store, choice: PollChoice, fresh: Seq<char>, source: DispatchSource) -> bool {
    match choice {
        PollChoice::Manual(j) => {
            let run = s.runs@[j as int];
            &&& source.run_id == run.record.id
            &&& source.attempt_no == 1
            &&& source.mirror_name == run.record.mirror_name
            &&& source.mirror_generation == run.record.mirror_generation
            &&& source.config_toml == config_of(s, run.record.mirror_name@, run.record.mirror_generation)
        },
        PollChoice::Retry(j) => {
            let run = s.runs@[j as int];
            &&& source.run_id == run.record.id
            &&& source.attempt_no == run.attempt_count + 1
            &&& source.mirror_name == run.record.mirror_name
            &&& source.mirror_generation == run.record.mirror_generation
            &&& source.config_toml == config_of(s, run.record.mirror_name@, run.record.mirror_generation)
        },
        PollChoice::Scheduled(k) => {
            let mirror = scheduled_mirror(s, k as int);
            &&& source.run_id@ == fresh
            &&& source.attempt_no == 1
            &&& source.mirror_name == mirror.name
            &&& source.mirror_generation == mirror.current_generation
            &&& source.config_toml == config_of(s, mirror.name@, mirror.current_generation)
        },
        _ => false,
    }
}

/// The configuration of a mirror in one of its generations.
pub open spec fn config_of(s: Store, mirror: Seq<char>, generation: u64) -> String {
    s.generations@[tables::generation_index(s.generations@, mirror, generation)->0].config_toml
}

/// True when only runs, attempts and schedules differ.
pub open spec fn handed_out(
    before: Store,
    after: Store,
    choice: PollChoice,
    source: DispatchSource,
    compiled: CompiledAttempt,
    now: i64,
) -> bool {
    &&& events::only_runs_change(before, after)
    &&& after.attempts@ == before.attempts@.push(attempt_queued(source.run_id, source.attempt_no, compiled, now))
    &&& match choice {
        PollChoice::Manual(j) | PollChoice::Retry(j) => {
            &&& after.runs@ == before.runs@.update(
                j as int,
                run_dispatched(before.runs@[j as int], source.attempt_no, compiled.policy),
            )
            &&& after.schedules@ == before.schedules@
        },
        PollChoice::Scheduled(k) => {
            &&& after.runs@ == before.runs@.push(
                run_dispatched(
                    run_scheduled(
                        source.run_id,
                        scheduled_mirror(before, k as int),
                        before.schedules@[k as int].runtime.catch_up_since_ms->0,
                        now,
                    ),
                    1,
                    compiled.policy,
                ),
            )
            &&& after.schedules@ == before.schedules@.update(k as int, intent_cleared(before.schedules@[k as int]))
        },
        _ => false,
    }
}

/// The tables after an attempt has been handed out once more.
pub open spec fn redelivered(before: Store, after: Store, i: int, now: i64) -> bool {
    let count = before.attempts@[i].dispatch_count;
    &&& events::only_runs_change(before, after)
    &&& after.runs == before.runs
    &&& after.schedules == before.schedules
    &&& after.attempts@ == before.attempts@.update(
        i,
        AttemptRow {
            dispatch_count: if count < u64::MAX { (count + 1) as u64 } else { count },
            last_dispatch_at_ms: Some(now),
            ..before.attempts@[i]
        },
    )
}

/// The action that starts an attempt.
pub open spec fn starts(action: PollAction, attempt: AttemptRecord, mirror: Seq<char>) -> bool {
    action matches PollAction::StartAttempt { run_id, attempt_no, mirror_name, spec_hash, spec_json } && run_id
        == attempt.run_id && attempt_no == attempt.attempt_no && mirror_name@ == mirror && spec_hash
        == attempt.spec_hash && spec_json == attempt.spec_json
}

/// Adding an attempt keeps the tables whole where its run has counted it and no other has its
/// number.
proof fn lemma_attempt_added(attempts: Seq<AttemptRow>, runs: Seq<RunRow>, row: AttemptRow, j: int)
    requires
        wellformed::attempts_unique(attempts),
        wellformed::attempts_have_runs(attempts, runs),
        wellformed::attempts_counted(attempts, runs),
        wellformed::runs_unique(runs),
        0 <= j < runs.len(),
        runs[j].record.id@ == row.record.run_id@,
        row.record.attempt_no <= runs[j].attempt_count,
        forall|i: int|
            0 <= i < attempts.len() && (#[trigger] attempts[i]).record.run_id@ == row.record.run_id@
                ==> attempts[i].record.attempt_no != row.record.attempt_no,
    ensures
        wellformed::attempts_unique(attempts.push(row)),
        wellformed::attempts_have_runs(attempts.push(row), runs),
        wellformed::attempts_counted(attempts.push(row), runs),
{
    let after = attempts.push(row);
    assert forall|k: int| 0 <= k < after.len() implies wellformed::has_run(
        runs,
        (#[trigger] after[k]).record.run_id@,
    ) by {
        if k < attempts.len() {
            assert(wellformed::has_run(runs, attempts[k].record.run_id@));
        } else {
            assert(runs[j].record.id@ == after[k].record.run_id@);
        }
    }
}

impl Store {
    fn config_at(&self, mirror: &str, generation: u64) -> (r: String)
        requires
            wellformed::has_generation(self.generations@, mirror@, generation),
        ensures
            r == config_of(*self, mirror@, generation),
    {
        proof {
            tables::lemma_generation_index(self.generations@, mirror@, generation);
        }
        let g: usize = tables::find_generation(&self.generations, mirror, generation).unwrap();
        self.generations[g].config_toml.clone()
    }

    /// What the next attempt of the chosen row is compiled from; `fresh` is the identifier of a run
    /// that is yet to be made.
    pub fn dispatch_source(&self, choice: PollChoice, fresh: &str) -> (r: Option<DispatchSource>)
        requires
            self.wf(),
            match choice {
                PollChoice::Manual(j) => j < self.runs@.len(),
                PollChoice::Retry(j) => j < self.runs@.len() && self.runs@[j as int].attempt_count < u32::MAX,
                PollChoice::Scheduled(k) => k < self.schedules@.len(),
                _ => true,
            },
        ensures
            match r {
                Some(source) => source_is(*self, choice, fresh@, source),
                None => !(choice is Manual) && !(choice is Retry) && !(choice is Scheduled),
            },
    {
        match choice {
            PollChoice::Manual(j) => {
                let run: &RunRow = &self.runs[j];
                Some(
                    DispatchSource {
                        run_id: run.record.id.clone(),
                        attempt_no: 1,
                        mirror_name: run.record.mirror_name.clone(),
                        mirror_generation: run.record.mirror_generation,
                        config_toml: self.config_at(run.record.mirror_name.as_str(), run.record.mirror_generation),
                    },
                )
            },
            PollChoice::Retry(j) => {
                let run: &RunRow = &self.runs[j];
                Some(
                    DispatchSource {
                        run_id: run.record.id.clone(),
                        attempt_no: run.attempt_count + 1,
                        mirror_name: run.record.mirror_name.clone(),
                        mirror_generation: run.record.mirror_generation,
                        config_toml: self.config_at(run.record.mirror_name.as_str(), run.record.mirror_generation),
                    },
                )
            },
            PollChoice::Scheduled(k) => {
                proof {
                    assert(wellformed::has_mirror(self.mirrors@, self.schedules@[k as int].mirror_name@));
                    tables::lemma_mirror_index(self.mirrors@, self.schedules@[k as int].mirror_name@);
                }
                let m: usize = tables::find_mirror(&self.mirrors, self.schedules[k].mirror_name.as_str()).unwrap();
                let mirror: &MirrorRow = &self.mirrors[m];
                Some(
                    DispatchSource {
                        run_id: fresh.to_owned(),
                        attempt_no: 1,
                        mirror_name: mirror.name.clone(),
                        mirror_generation: mirror.current_generation,
                        config_toml: self.config_at(mirror.name.as_str(), mirror.current_generation),
                    },
                )
            },
            _ => None,
        }
    }

    fn make_scheduled_run(&mut self, k: usize, source: &DispatchSource, policy: RunPolicySnapshot, now: i64)
        requires
            old(self).wf(),
            k < old(self).schedules@.len(),
            old(self).schedules@[k as int].runtime.catch_up_since_ms is Some,
            !tables::has_active_run(old(self).runs@, old(self).schedules@[k as int].mirror_name@),
            !wellformed::has_run(old(self).runs@, source.run_id@),
            source.mirror_name@ == old(self).schedules@[k as int].mirror_name@,
        ensures
            final(self).wf(),
            events::only_runs_change(*old(self), *final(self)),
            final(self).attempts == old(self).attempts,
            final(self).runs@ == old(self).runs@.push(
                run_dispatched(
                    run_scheduled(
                        source.run_id,
                        scheduled_mirror(*old(self), k as int),
                        old(self).schedules@[k as int].runtime.catch_up_since_ms->0,
                        now,
                    ),
                    1,
                    policy,
                ),
            ),
            final(self).schedules@ == old(self).schedules@.update(
                k as int,
                intent_cleared(old(self).schedules@[k as int]),
            ),
    {
        let ghost start = *self;
        proof {
            assert(wellformed::has_mirror(self.mirrors@, self.schedules@[k as int].mirror_name@));
            tables::lemma_mirror_index(self.mirrors@, self.schedules@[k as int].mirror_name@);
        }
        let m: usize = tables::find_mirror(&self.mirrors, self.schedules[k].mirror_name.as_str()).unwrap();
        let since: i64 = self.schedules[k].runtime.catch_up_since_ms.unwrap();
        let row: RunRow = RunRow {
            record: RunRecord {
                id: source.run_id.clone(),
                mirror_name: self.mirrors[m].name.clone(),
                mirror_generation: self.mirrors[m].current_generation,
                owner_node: self.mirrors[m].owner_node.clone(),
                trigger: RunTrigger::Scheduled,
                state: RunState::Pending,
                created_at_ms: now,
                started_at_ms: None,
                finished_at_ms: None,
                final_exit_code: None,
                failure_kind: None,
                failure_message: None,
                max_attempts: policy.max_attempts,
                retry_delay_ms: policy.retry_delay_ms,
                scheduled_for_at_ms: Some(since),
                retry_due_at_ms: None,
                cancel_requested_at_ms: None,
            },
            attempt_count: 1,
            manual_request_id: None,
        };
        self.runs.push(row);
        let schedule: &mut ScheduleRow = &mut self.schedules[k];
        schedule.runtime.catch_up_pending = false;
        schedule.runtime.catch_up_since_ms = None;
        proof {
            events::lemma_schedule_updated_in_place(start.schedules@, self.schedules@, k as int);
            lemma_run_added(start, self.runs@.last());
            assert(self.runs@ == start.runs@.push(self.runs@.last()));
        }
    }

    /// Hands out the compiled attempt of the chosen row.
    pub fn hand_out(&mut self, choice: PollChoice, source: DispatchSource, compiled: CompiledAttempt, now: i64) -> (r:
        PollAction)
        requires
            old(self).wf(),
            match choice {
                PollChoice::Manual(j) => j < old(self).runs@.len() && !tables::has_attempt(
                    old(self).attempts@,
                    old(self).runs@[j as int].record.id@,
                ) && source_is(
                    *old(self),
                    choice,
                    Seq::empty(),
                    source,
                ),
                PollChoice::Retry(j) => j < old(self).runs@.len() && old(self).runs@[j as int].attempt_count < u32::MAX
                    && source_is(*old(self), choice, Seq::empty(), source),
                PollChoice::Scheduled(k) => k < old(self).schedules@.len() && old(
                    self,
                ).schedules@[k as int].runtime.catch_up_since_ms is Some && !tables::has_active_run(
                    old(self).runs@,
                    old(self).schedules@[k as int].mirror_name@,
                ) && !wellformed::has_run(old(self).runs@, source.run_id@) && source_is(
                    *old(self),
                    choice,
                    source.run_id@,
                    source,
                ),
                _ => false,
            },
        ensures
            final(self).wf(),
            handed_out(*old(self), *final(self), choice, source, compiled, now),
            starts(r, attempt_queued(source.run_id, source.attempt_no, compiled, now).record, source.mirror_name@),
    {
        let ghost start = *self;
        let mut place: usize = self.runs.len();
        match choice {
            PollChoice::Manual(j) | PollChoice::Retry(j) => {
                place = j;
                let run: &mut RunRow = &mut self.runs[j];
                if run.record.trigger == RunTrigger::Scheduled {
                    run.record.max_attempts = compiled.policy.max_attempts;
                    run.record.retry_delay_ms = compiled.policy.retry_delay_ms;
                }
                run.record.retry_due_at_ms = None;
                run.attempt_count = source.attempt_no;
                proof {
                    events::lemma_run_updated_in_place(start.runs@, self.runs@, j as int);
                    assert(self.runs@ == start.runs@.update(
                        j as int,
                        run_dispatched(start.runs@[j as int], source.attempt_no, compiled.policy),
                    ));
                }
            },
            PollChoice::Scheduled(k) => {
                proof {
                    assert(wellformed::has_mirror(start.mirrors@, start.schedules@[k as int].mirror_name@));
                    tables::lemma_mirror_index(start.mirrors@, start.schedules@[k as int].mirror_name@);
                }
                self.make_scheduled_run(k, &source, compiled.policy, now);
            },
            _ => {},
        }
        let row: AttemptRow = AttemptRow {
            record: AttemptRecord {
                run_id: source.run_id.clone(),
                attempt_no: source.attempt_no,
                state: AttemptState::Queued,
                spec_hash: compiled.spec_hash.clone(),
                spec_json: compiled.spec_json.clone(),
                created_at_ms: now,
                accepted_at_ms: None,
                started_at_ms: None,
                finished_at_ms: None,
                exit_code: None,
                failure_kind: None,
                failure_message: None,
                last_event_sequence: 0,
            },
            agent_instance_id: None,
            dispatch_count: 1,
            last_dispatch_at_ms: Some(now),
        };
        proof {
            assert forall|i: int|
                0 <= i < self.attempts@.len() && (#[trigger] self.attempts@[i]).record.run_id@
                    == row.record.run_id@ implies self.attempts@[i].record.attempt_no != row.record.attempt_no by {
                match choice {
                    PollChoice::Manual(j) => {
                        assert(tables::has_attempt(start.attempts@, start.runs@[j as int].record.id@));
                    },
                    PollChoice::Retry(j) => {
                        assert(start.attempts@[i].record.attempt_no <= start.runs@[j as int].attempt_count);
                    },
                    PollChoice::Scheduled(k) => {
                        assert(wellformed::has_run(start.runs@, start.attempts@[i].record.run_id@));
                    },
                    _ => {},
                }
            }
            lemma_attempt_added(self.attempts@, self.runs@, row, place as int);
        }
        self.attempts.push(row);
        PollAction::StartAttempt {
            run_id: source.run_id,
            attempt_no: source.attempt_no,
            mirror_name: source.mirror_name,
            spec_hash: compiled.spec_hash,
            spec_json: compiled.spec_json,
        }
    }
}

/// Adding a run keeps the tables whole where its identifier and its request are new and its mirror
/// has no run in flight.
pub proof fn lemma_run_added(start: Store, row: RunRow)
    requires
        start.wf(),
        !wellformed::has_run(start.runs@, row.record.id@),
        !tables::has_active_run(start.runs@, row.record.mirror_name@),
        wellformed::has_mirror(start.mirrors@, row.record.mirror_name@),
        wellformed::has_generation(start.generations@, row.record.mirror_name@, row.record.mirror_generation),
        row.manual_request_id is Some ==> forall|i: int|
            0 <= i < start.runs@.len() && (#[trigger] start.runs@[i]).manual_request_id is Some
                ==> start.runs@[i].manual_request_id->0@ != row.manual_request_id->0@,
    ensures
        wellformed::runs_unique(start.runs@.push(row)),
        wellformed::requests_unique(start.runs@.push(row)),
        wellformed::one_active_run(start.runs@.push(row)),
        wellformed::runs_have_mirrors(start.runs@.push(row), start.mirrors@, start.generations@),
        wellformed::attempts_have_runs(start.attempts@, start.runs@.push(row)),
        wellformed::attempts_counted(start.attempts@, start.runs@.push(row)),
{
    let after = start.runs@.push(row);
    assert forall|k: int| 0 <= k < start.attempts@.len() implies wellformed::has_run(
        after,
        (#[trigger] start.attempts@[k]).record.run_id@,
    ) by {
        assert(wellformed::has_run(start.runs@, start.attempts@[k].record.run_id@));
        let w = choose|w: int|
            0 <= w < start.runs@.len() && (#[trigger] start.runs@[w]).record.id@ == start.attempts@[k].record.run_id@;
        assert(after[w].record.id@ == start.attempts@[k].record.run_id@);
    }
    assert forall|i: int, j: int|
        0 <= i < start.attempts@.len() && 0 <= j < after.len() && (#[trigger] start.attempts@[i]).record.run_id@ == (
        #[trigger] after[j]).record.id@ implies start.attempts@[i].record.attempt_no <= after[j].attempt_count by {
        if j == start.runs@.len() {
            assert(wellformed::has_run(start.runs@, start.attempts@[i].record.run_id@));
        } else {
            assert(start.runs@[j].record.id@ == start.attempts@[i].record.run_id@);
        }
    }
}

/// What a poll comes to for the chosen row. A cancellation changes nothing; a redelivery is counted;
/// an attempt is handed out once `compile` has made it of its source, and what `compile` refuses
/// changes nothing.
pub open spec fn polled(
    before: Store,
    after: Store,
    choice: PollChoice,
    fresh: Seq<char>,
    now: i64,
    compile: spec_fn(DispatchSource, Result<CompiledAttempt, StoreError>) -> bool,
    r: Result<Option<PollAction>, StoreError>,
) -> bool {
    match choice {
        PollChoice::Cancel(i) => {
            let attempt = before.attempts@[i as int].record;
            &&& after == before
            &&& r matches Ok(Some(PollAction::CancelAttempt { run_id, attempt_no, spec_hash }))
            &&& run_id == attempt.run_id
            &&& attempt_no == attempt.attempt_no
            &&& spec_hash == attempt.spec_hash
        },
        PollChoice::Redeliver(i) => {
            &&& redelivered(before, after, i as int, now)
            &&& r matches Ok(Some(action))
            &&& starts(
                action,
                before.attempts@[i as int].record,
                super::dispatch::run_row(before, i as int).record.mirror_name@,
            )
        },
        PollChoice::Full | PollChoice::Idle => after == before && r == Ok::<Option<PollAction>, StoreError>(None),
        PollChoice::Manual(_) | PollChoice::Retry(_) | PollChoice::Scheduled(_) => if choice is Scheduled
            && wellformed::has_run(before.runs@, fresh) {
            after == before && r matches Err(StoreError::Database(_))
        } else {
            exists|source: DispatchSource, outcome: Result<CompiledAttempt, StoreError>|
                source_is(before, choice, fresh, source) && #[trigger] answers(compile, source, outcome) && match outcome {
                    Err(error) => after == before && r == Err::<Option<PollAction>, StoreError>(error),
                    Ok(compiled) => {
                        &&& handed_out(before, after, choice, source, compiled, now)
                        &&& r matches Ok(Some(action))
                        &&& starts(
                            action,
                            attempt_queued(source.run_id, source.attempt_no, compiled, now).record,
                            source.mirror_name@,
                        )
                    },
                }
        },
    }
}

impl Store {
    fn mark_redelivery(&mut self, i: usize, now: i64)
        requires
            old(self).wf(),
            i < old(self).attempts@.len(),
        ensures
            final(self).wf(),
            redelivered(*old(self), *final(self), i as int, now),
    {
        let ghost start = *self;
        let row: &mut AttemptRow = &mut self.attempts[i];
        row.dispatch_count = row.dispatch_count.saturating_add(1);
        row.last_dispatch_at_ms = Some(now);
        proof {
            events::lemma_attempt_updated_in_place(start.attempts@, self.attempts@, i as int);
        }
    }

    /// Tells a node what to do next; `fresh` is the identifier of a run that may have to be made.
    pub fn poll_action_as<F: FnOnce(&DispatchSource) -> Result<CompiledAttempt, StoreError>>(
        &mut self,
        node: &str,
        now: i64,
        fresh: &str,
        compile: F,
    ) -> (r: Result<Option<PollAction>, StoreError>)
        requires
            old(self).wf(),
            forall|source: &DispatchSource| #[trigger] call_requires(compile, (source,)),
        ensures
            final(self).wf(),
            exists|choice: PollChoice| #[trigger]
                is_next(*old(self), node@, now, choice) && polled(
                    *old(self),
                    *final(self),
                    choice,
                    fresh@,
                    now,
                    |source: DispatchSource, outcome: Result<CompiledAttempt, StoreError>|
                        call_ensures(compile, (&source,), outcome),
                    r,
                ),
    {
        let choice: PollChoice = self.poll_choice(node, now);
        let ghost start = *self;
        assert(is_next(start, node@, now, choice));
        match choice {
            PollChoice::Cancel(i) => {
                assert(cancellable(start, node@, i as int));
                let attempt: &AttemptRecord = &self.attempts[i].record;
                return Ok(
                    Some(
                        PollAction::CancelAttempt {
                            run_id: attempt.run_id.clone(),
                            attempt_no: attempt.attempt_no,
                            spec_hash: attempt.spec_hash.clone(),
                        },
                    ),
                );
            },
            PollChoice::Redeliver(i) => {
                assert(redeliverable(start, node@, i as int));
                proof {
                    assert(wellformed::has_run(self.runs@, self.attempts@[i as int].record.run_id@));
                    tables::lemma_run_index(self.runs@, self.attempts@[i as int].record.run_id@);
                }
                let j: usize = tables::find_run(&self.runs, self.attempts[i].record.run_id.as_str()).unwrap();
                let attempt: &AttemptRecord = &self.attempts[i].record;
                let action: PollAction = PollAction::StartAttempt {
                    run_id: attempt.run_id.clone(),
                    attempt_no: attempt.attempt_no,
                    mirror_name: self.runs[j].record.mirror_name.clone(),
                    spec_hash: attempt.spec_hash.clone(),
                    spec_json: attempt.spec_json.clone(),
                };
                self.mark_redelivery(i, now);
                return Ok(Some(action));
            },
            PollChoice::Full | PollChoice::Idle => {
                return Ok(None);
            },
            PollChoice::Manual(j) => {
                assert(manual_ready(start, node@, j as int));
            },
            PollChoice::Retry(j) => {
                assert(retry_ready(start, node@, now, j as int));
            },
            PollChoice::Scheduled(k) => {
                assert(schedule_ready(start, node@, k as int));
                proof {
                    tables::lemma_run_index(self.runs@, fresh@);
                    assert(wellformed::has_mirror(self.mirrors@, self.schedules@[k as int].mirror_name@));
                    tables::lemma_mirror_index(self.mirrors@, self.schedules@[k as int].mirror_name@);
                }
                if tables::find_run(&self.runs, fresh).is_some() {
                    return Err(StoreError::Database("run identifier is already in use".to_owned()));
                }
            },
        }
        let source: DispatchSource = self.dispatch_source(choice, fresh).unwrap();
        let outcome: Result<CompiledAttempt, StoreError> = compile(&source);
        proof {
            let answerer = |source: DispatchSource, outcome: Result<CompiledAttempt, StoreError>|
                call_ensures(compile, (&source,), outcome);
            assert(answers(answerer, source, outcome));
        }
        match outcome {
            Err(error) => Err(error),
            Ok(compiled) => Ok(Some(self.hand_out(choice, source, compiled, now))),
        }
    }

    /// Tells a node what to do next. Where a waiting schedule comes to a run, the run's identifier is
    /// made of the time and of chance.
    pub fn poll_action<F: FnOnce(&DispatchSource) -> Result<CompiledAttempt, StoreError>>(
        &mut self,
        node: &str,
        now: i64,
        compile: F,
    ) -> (r: Result<Option<PollAction>, StoreError>)
        requires
            old(self).wf(),
            forall|source: &DispatchSource| #[trigger] call_requires(compile, (source,)),
        ensures
            final(self).wf(),
            exists|choice: PollChoice, id: RunId|
                #![trigger is_next(*old(self), node@, now, choice), id.text()]
                is_next(*old(self), node@, now, choice) && polled(
                    *old(self),
                    *final(self),
                    choice,
                    id.text(),
                    now,
                    |source: DispatchSource, outcome: Result<CompiledAttempt, StoreError>|
                        call_ensures(compile, (&source,), outcome),
                    r,
                ),
    {
        let id: RunId = RunId::new();
        let fresh: String = id.to_text();
        self.poll_action_as(node, now, fresh.as_str(), compile)
    }
}

/// A cancellation comes before everything else, and what was handed out and not heard of comes
/// before anything new.
pub proof fn law_cancellation_first(s: Store, node: Seq<char>, now: i64, choice: PollChoice, i: int)
    requires
        is_next(s, node, now, choice),
    ensures
        cancellable(s, node, i) ==> choice is Cancel,
        redeliverable(s, node, i) ==> choice is Cancel || choice is Redeliver,
{
}

/// Want of capacity holds back new work only.
pub proof fn law_capacity_holds_back_new_work_only(s: Store, node: Seq<char>, now: i64, choice: PollChoice)
    requires
        is_next(s, node, now, choice),
        !super::dispatch::has_capacity(s, node),
    ensures
        choice is Cancel || choice is Redeliver || choice is Full,
{
}

/// A node is only handed its own work: the run or mirror behind every choice is the node's.
pub proof fn law_nodes_get_their_own_work(s: Store, node: Seq<char>, now: i64, choice: PollChoice)
    requires
        is_next(s, node, now, choice),
    ensures
        match choice {
            PollChoice::Cancel(i) | PollChoice::Redeliver(i) => super::dispatch::run_row(
                s,
                i as int,
            ).record.owner_node@ == node,
            PollChoice::Manual(j) | PollChoice::Retry(j) => s.runs@[j as int].record.owner_node@ == node,
            PollChoice::Scheduled(k) => scheduled_mirror(s, k as int).owner_node@ == node,
            _ => true,
        },
{
}

/// A retry keeps to its run: the run is the same one, its attempts are counted on, and they never
/// pass what the run allows.
pub proof fn law_retry_counts_on(
    before: Store,
    after: Store,
    node: Seq<char>,
    now: i64,
    j: usize,
    source: DispatchSource,
    compiled: CompiledAttempt,
)
    requires
        is_next(before, node, now, PollChoice::Retry(j)),
        source_is(before, PollChoice::Retry(j), Seq::empty(), source),
        handed_out(before, after, PollChoice::Retry(j), source, compiled, now),
    ensures
        after.runs@.len() == before.runs@.len(),
        after.runs@[j as int].record.id == before.runs@[j as int].record.id,
        after.runs@[j as int].attempt_count == before.runs@[j as int].attempt_count + 1,
        before.runs@[j as int].attempt_count < before.runs@[j as int].record.max_attempts,
        after.runs@[j as int].record.retry_due_at_ms is None,
{
    assert(retry_ready(before, node, now, j as int));
}

/// Where the run stands whose attempt has just been handed out.
spec fn place_of_run(before: Store, choice: PollChoice) -> int {
    match choice {
        PollChoice::Manual(j) | PollChoice::Retry(j) => j as int,
        _ => before.runs@.len() as int,
    }
}

proof fn lemma_handed_out_run(
    before: Store,
    after: Store,
    node: Seq<char>,
    now: i64,
    choice: PollChoice,
    source: DispatchSource,
    compiled: CompiledAttempt,
)
    requires
        before.wf(),
        after.wf(),
        is_next(before, node, now, choice),
        source_is(before, choice, source.run_id@, source),
        handed_out(before, after, choice, source, compiled, now),
    ensures
        ({
            let place = place_of_run(before, choice);
            &&& 0 <= place < after.runs@.len()
            &&& after.runs@[place].record.id@ == source.run_id@
            &&& after.runs@[place].attempt_count == source.attempt_no
            &&& after.runs@[place].record.owner_node@ == node
            &&& tables::is_active(after.runs@[place])
            &&& events::run_of(after, before.attempts@.len() as int) == place
        }),
{
    match choice {
        PollChoice::Manual(j) => {
            assert(manual_ready(before, node, j as int));
        },
        PollChoice::Retry(j) => {
            assert(retry_ready(before, node, now, j as int));
        },
        PollChoice::Scheduled(k) => {
            assert(schedule_ready(before, node, k as int));
        },
        _ => {},
    }
    tables::lemma_run_index(after.runs@, source.run_id@);
}

proof fn lemma_other_attempts_stay(
    before: Store,
    after: Store,
    node: Seq<char>,
    now: i64,
    choice: PollChoice,
    source: DispatchSource,
    compiled: CompiledAttempt,
    i: int,
)
    requires
        before.wf(),
        after.wf(),
        is_next(before, node, now, choice),
        source_is(before, choice, source.run_id@, source),
        handed_out(before, after, choice, source, compiled, now),
        0 <= i < before.attempts@.len(),
    ensures
        !cancellable(after, node, i),
        !redeliverable(after, node, i),
{
    let id = before.attempts@[i].record.run_id@;
    assert(after.attempts@[i] == before.attempts@[i]);
    assert(!cancellable(before, node, i));
    assert(!redeliverable(before, node, i));
    assert(wellformed::has_run(before.runs@, id));
    tables::lemma_run_index(before.runs@, id);
    tables::lemma_run_index(after.runs@, id);
    let was = events::run_of(before, i);
    assert(after.runs@[was].record.id@ == id);
    assert(events::run_of(after, i) == was);
    if was == place_of_run(before, choice) {
        match choice {
            PollChoice::Manual(j) => {
                assert(manual_ready(before, node, j as int));
                assert(tables::has_attempt(before.attempts@, before.runs@[j as int].record.id@));
            },
            PollChoice::Retry(j) => {
                assert(before.attempts@[i].record.attempt_no <= before.runs@[j as int].attempt_count);
            },
            _ => {},
        }
    }
}

/// What was handed out is what the node is told again until something is heard of it: whenever the
/// node asks next, it gets the same attempt, to start or, once that has been asked for, to cancel.
pub proof fn law_unheard_attempts_come_again(
    before: Store,
    after: Store,
    node: Seq<char>,
    now: i64,
    choice: PollChoice,
    source: DispatchSource,
    compiled: CompiledAttempt,
    later: i64,
    next: PollChoice,
)
    requires
        before.wf(),
        after.wf(),
        is_next(before, node, now, choice),
        source_is(before, choice, source.run_id@, source),
        handed_out(before, after, choice, source, compiled, now),
        is_next(after, node, later, next),
    ensures
        ({
            let last = before.attempts@.len() as int;
            &&& after.attempts@[last].record.run_id == source.run_id
            &&& after.attempts@[last].record.attempt_no == source.attempt_no
            &&& after.attempts@[last].record.spec_hash == compiled.spec_hash
            &&& after.attempts@[last].record.spec_json == compiled.spec_json
            &&& if super::dispatch::run_row(after, last).record.cancel_requested_at_ms is Some {
                next == PollChoice::Cancel(last as usize)
            } else {
                next == PollChoice::Redeliver(last as usize)
            }
        }),
{
    let last = before.attempts@.len() as int;
    let row = attempt_queued(source.run_id, source.attempt_no, compiled, now);
    assert(after.attempts@[last] == row);
    lemma_handed_out_run(before, after, node, now, choice, source, compiled);
    assert(redeliverable(after, node, last));
    assert forall|i: int| 0 <= i < last implies !cancellable(after, node, i) && !redeliverable(after, node, i) by {
        lemma_other_attempts_stay(before, after, node, now, choice, source, compiled, i);
    }
    assert(cancellable(after, node, last) <==> super::dispatch::run_row(
        after,
        last,
    ).record.cancel_requested_at_ms is Some);
    match next {
        PollChoice::Cancel(i) => {
            assert(cancellable(after, node, i as int));
        },
        PollChoice::Redeliver(i) => {
            assert(redeliverable(after, node, i as int));
        },
        _ => {},
    }
}

/// How much room a node has is what its row counts: while fewer runs are active than it takes at once,
/// it is never taken for full, and when not, it is handed nothing new.
pub proof fn law_room_is_what_the_node_counts(s: Store, node: Seq<char>, now: i64, choice: PollChoice, n: int)
    requires
        s.wf(),
        is_next(s, node, now, choice),
        0 <= n < s.nodes@.len(),
        s.nodes@[n].record.name@ == node,
    ensures
        s.nodes@[n].record.active_runs < s.nodes@[n].record.max_concurrent_runs ==> !(choice is Full),
        s.nodes@[n].record.active_runs >= s.nodes@[n].record.max_concurrent_runs ==> choice is Cancel || choice
            is Redeliver || choice is Full,
{
    lookup::lemma_own_node(s.nodes@, n);
}

/// A node of which no row counts anything is never taken for full.
pub proof fn law_unknown_nodes_have_room(s: Store, node: Seq<char>, now: i64, choice: PollChoice)
    requires
        is_next(s, node, now, choice),
        forall|n: int| 0 <= n < s.nodes@.len() ==> (#[trigger] s.nodes@[n]).record.name@ != node,
    ensures
        !(choice is Full),
{
    tables::lemma_node_index(s.nodes@, node);
}

/// True of an attempt and its run, told by their rows, where the node is to cancel it: it was handed to
/// the node, has not ended, is the run's latest, and the cancellation of the run was asked for.
spec fn to_cancel(attempt: AttemptRow, run: RunRow, node: Seq<char>) -> bool {
    &&& attempt.record.run_id@ == run.record.id@
    &&& run.record.owner_node@ == node
    &&& run.record.state == RunState::Pending || run.record.state == RunState::Running
    &&& run.record.cancel_requested_at_ms is Some
    &&& attempt.record.attempt_no == run.attempt_count
    &&& attempt.dispatch_count >= 1
    &&& attempt.record.state == AttemptState::Queued || attempt.record.state == AttemptState::Accepted
        || attempt.record.state == AttemptState::Running
}

/// An attempt that is to be cancelled is told its node before anything else, the one first whose
/// cancellation was asked for first; and nothing else is told to be cancelled.
pub proof fn law_asked_cancellations_are_told(
    s: Store,
    node: Seq<char>,
    now: i64,
    choice: PollChoice,
    a: int,
    j: int,
)
    requires
        s.wf(),
        is_next(s, node, now, choice),
        0 <= a < s.attempts@.len(),
        0 <= j < s.runs@.len(),
        s.attempts@[a].record.run_id@ == s.runs@[j].record.id@,
    ensures
        ({
            let attempt = s.attempts@[a];
            let run = s.runs@[j];
            &&& run.record.owner_node@ == node && (run.record.state == RunState::Pending || run.record.state
                == RunState::Running) && run.record.cancel_requested_at_ms is Some && attempt.record.attempt_no
                == run.attempt_count && attempt.dispatch_count >= 1 && (attempt.record.state == AttemptState::Queued
                || attempt.record.state == AttemptState::Accepted || attempt.record.state == AttemptState::Running)
                ==> choice is Cancel && super::dispatch::run_row(
                s,
                choice->Cancel_0 as int,
            ).record.cancel_requested_at_ms->0 <= run.record.cancel_requested_at_ms->0
            &&& choice is Cancel && choice->Cancel_0 == a ==> {
                &&& run.record.owner_node@ == node
                &&& run.record.state == RunState::Pending || run.record.state == RunState::Running
                &&& run.record.cancel_requested_at_ms is Some
                &&& attempt.record.attempt_no == run.attempt_count
                &&& attempt.dispatch_count >= 1
                &&& attempt.record.state == AttemptState::Queued || attempt.record.state == AttemptState::Accepted
                    || attempt.record.state == AttemptState::Running
            }
        }),
{
    lookup::lemma_own_run(s.runs@, j);
    assert(super::dispatch::run_row(s, a) == s.runs@[j]);
    if to_cancel(s.attempts@[a], s.runs@[j], node) {
        assert(cancellable(s, node, a));
        let c = choice->Cancel_0 as int;
        assert(cancellable(s, node, c));
        assert(!super::dispatch::sooner(super::dispatch::cancel_key(s, a), super::dispatch::cancel_key(s, c)));
    }
    if choice is Cancel && choice->Cancel_0 == a {
        assert(cancellable(s, node, a));
    }
}

/// An attempt that was handed to its node and of which nothing was heard is handed out again before
/// anything new, the one first that was handed out longest ago; and no attempt that was heard of, or
/// whose run has ended, or that another node has, is handed out again.
pub proof fn law_unheard_attempts_are_handed_out_again(
    s: Store,
    node: Seq<char>,
    now: i64,
    choice: PollChoice,
    a: int,
    j: int,
)
    requires
        s.wf(),
        is_next(s, node, now, choice),
        0 <= a < s.attempts@.len(),
        0 <= j < s.runs@.len(),
        s.attempts@[a].record.run_id@ == s.runs@[j].record.id@,
    ensures
        ({
            let attempt = s.attempts@[a];
            let run = s.runs@[j];
            let unheard = run.record.owner_node@ == node && (run.record.state == RunState::Pending || run.record.state
                == RunState::Running) && attempt.record.state == AttemptState::Queued && attempt.dispatch_count >= 1;
            &&& unheard ==> choice is Cancel || choice is Redeliver
            &&& unheard && choice is Redeliver && attempt.last_dispatch_at_ms is Some
                && s.attempts@[choice->Redeliver_0 as int].last_dispatch_at_ms is Some
                ==> s.attempts@[choice->Redeliver_0 as int].last_dispatch_at_ms->0 <= attempt.last_dispatch_at_ms->0
            &&& choice is Redeliver && choice->Redeliver_0 == a ==> unheard
        }),
{
    lookup::lemma_own_run(s.runs@, j);
    assert(super::dispatch::run_row(s, a) == s.runs@[j]);
    let unheard = s.runs@[j].record.owner_node@ == node && (s.runs@[j].record.state == RunState::Pending
        || s.runs@[j].record.state == RunState::Running) && s.attempts@[a].record.state == AttemptState::Queued
        && s.attempts@[a].dispatch_count >= 1;
    assert(unheard ==> redeliverable(s, node, a));
    if unheard && choice is Redeliver {
        let c = choice->Redeliver_0 as int;
        assert(redeliverable(s, node, c));
        assert(!super::dispatch::sooner(super::dispatch::redelivery_key(s, a), super::dispatch::redelivery_key(s, c)));
    }
    if choice is Redeliver && choice->Redeliver_0 == a {
        assert(redeliverable(s, node, a));
    }
}

/// A manual run that waits for its first attempt, of a mirror in force, is begun as soon as its node has
/// room and nothing handed out is left to tell it, the oldest such run first; and nothing else is begun
/// as a manual run.
pub proof fn law_waiting_manual_runs_are_begun(
    s: Store,
    node: Seq<char>,
    now: i64,
    choice: PollChoice,
    j: int,
    m: int,
)
    requires
        s.wf(),
        is_next(s, node, now, choice),
        0 <= j < s.runs@.len(),
        0 <= m < s.mirrors@.len(),
        s.mirrors@[m].name@ == s.runs@[j].record.mirror_name@,
    ensures
        ({
            let run = s.runs@[j].record;
            let waits = run.owner_node@ == node && run.state == RunState::Pending && run.trigger == RunTrigger::Manual
                && s.mirrors@[m].managed && s.mirrors@[m].enabled && forall|a: int|
                0 <= a < s.attempts@.len() ==> (#[trigger] s.attempts@[a]).record.run_id@ != run.id@;
            &&& waits ==> choice is Cancel || choice is Redeliver || choice is Full || (choice is Manual
                && s.runs@[choice->Manual_0 as int].record.created_at_ms <= run.created_at_ms)
            &&& choice is Manual && choice->Manual_0 == j ==> waits
        }),
{
    lookup::lemma_own_mirror(s.mirrors@, m);
    if manual_ready(s, node, j) && choice is Manual {
        assert(manual_ready(s, node, choice->Manual_0 as int));
    }
    if choice is Manual && choice->Manual_0 == j {
        assert(manual_ready(s, node, j));
    }
}

/// A run whose retry is due is retried as soon as its node has room, nothing handed out is left to tell
/// it and no manual run waits, the one first that was due first; no run is retried before its time, once
/// its cancellation was asked for, beyond its attempts, or while its mirror is out of force or elsewhere.
pub proof fn law_due_retries_are_begun(s: Store, node: Seq<char>, now: i64, choice: PollChoice, j: int, m: int)
    requires
        s.wf(),
        is_next(s, node, now, choice),
        0 <= j < s.runs@.len(),
        0 <= m < s.mirrors@.len(),
        s.mirrors@[m].name@ == s.runs@[j].record.mirror_name@,
    ensures
        ({
            let run = s.runs@[j].record;
            let due = run.owner_node@ == node && run.state == RunState::Running && run.retry_due_at_ms is Some
                && run.retry_due_at_ms->0 <= now && run.cancel_requested_at_ms is None && s.mirrors@[m].managed
                && s.mirrors@[m].enabled && s.mirrors@[m].owner_node@ == node && s.runs@[j].attempt_count + 1
                <= run.max_attempts;
            &&& due ==> choice is Cancel || choice is Redeliver || choice is Full || choice is Manual || (choice is Retry
                && s.runs@[choice->Retry_0 as int].record.retry_due_at_ms->0 <= run.retry_due_at_ms->0)
            &&& choice is Retry && choice->Retry_0 == j ==> due
        }),
{
    lookup::lemma_own_mirror(s.mirrors@, m);
    let run = s.runs@[j].record;
    let due = run.owner_node@ == node && run.state == RunState::Running && run.retry_due_at_ms is Some
        && run.retry_due_at_ms->0 <= now && run.cancel_requested_at_ms is None && s.mirrors@[m].managed
        && s.mirrors@[m].enabled && s.mirrors@[m].owner_node@ == node && s.runs@[j].attempt_count + 1
        <= run.max_attempts;
    assert(due ==> retry_ready(s, node, now, j));
    if due && choice is Retry {
        assert(retry_ready(s, node, now, choice->Retry_0 as int));
        assert(!super::dispatch::retry_sooner(s.runs@[j], s.runs@[choice->Retry_0 as int]));
    }
    if choice is Retry && choice->Retry_0 == j {
        assert(retry_ready(s, node, now, j));
    }
}

/// A schedule that waits, of a mirror in force without a run in flight, comes to a run as soon as its
/// node has room and nothing else is to be done, the one first that waits longest; and no schedule that
/// does not wait comes to a run.
pub proof fn law_waiting_schedules_are_begun(
    s: Store,
    node: Seq<char>,
    now: i64,
    choice: PollChoice,
    k: int,
    m: int,
)
    requires
        s.wf(),
        is_next(s, node, now, choice),
        0 <= k < s.schedules@.len(),
        0 <= m < s.mirrors@.len(),
        s.mirrors@[m].name@ == s.schedules@[k].mirror_name@,
    ensures
        ({
            let runtime = s.schedules@[k].runtime;
            let waits = s.mirrors@[m].owner_node@ == node && s.mirrors@[m].managed && s.mirrors@[m].enabled
                && runtime.catch_up_pending && runtime.catch_up_since_ms is Some && forall|j: int|
                0 <= j < s.runs@.len() && (#[trigger] s.runs@[j]).record.mirror_name@ == s.mirrors@[m].name@
                    ==> s.runs@[j].record.state != RunState::Pending && s.runs@[j].record.state != RunState::Running;
            &&& waits ==> !(choice is Idle)
            &&& waits && choice is Scheduled ==> s.schedules@[choice->Scheduled_0 as int].runtime.catch_up_since_ms->0
                <= runtime.catch_up_since_ms->0
            &&& choice is Scheduled && choice->Scheduled_0 == k ==> waits
        }),
{
    lookup::lemma_own_mirror(s.mirrors@, m);
    let waits = s.mirrors@[m].owner_node@ == node && s.mirrors@[m].managed && s.mirrors@[m].enabled
        && s.schedules@[k].runtime.catch_up_pending && s.schedules@[k].runtime.catch_up_since_ms is Some && forall|j: int|
        0 <= j < s.runs@.len() && (#[trigger] s.runs@[j]).record.mirror_name@ == s.mirrors@[m].name@
            ==> s.runs@[j].record.state != RunState::Pending && s.runs@[j].record.state != RunState::Running;
    if waits {
        assert(schedule_ready(s, node, k));
        if choice is Scheduled {
            let c = choice->Scheduled_0 as int;
            assert(schedule_ready(s, node, c));
            assert(!super::dispatch::sooner(super::dispatch::schedule_key(s, k), super::dispatch::schedule_key(s, c)));
        }
    }
    if choice is Scheduled && choice->Scheduled_0 == k {
        assert(schedule_ready(s, node, k));
        assert forall|j: int|
            0 <= j < s.runs@.len() && (#[trigger] s.runs@[j]).record.mirror_name@ == s.mirrors@[m].name@ implies
            s.runs@[j].record.state != RunState::Pending && s.runs@[j].record.state != RunState::Running by {
            if s.runs@[j].record.state == RunState::Pending || s.runs@[j].record.state == RunState::Running {
                assert(tables::is_active(s.runs@[j]));
                assert(tables::has_active_run(s.runs@, s.mirrors@[m].name@));
            }
        }
    }
}

/// What a node is told is what the tables hold: a cancellation names the attempt, its number and its
/// specification and changes nothing; an attempt that is handed out again is the same as before and is
/// counted once more; and where nothing is told, nothing changes.
pub proof fn law_nodes_are_told_what_the_tables_hold(
    before: Store,
    after: Store,
    choice: PollChoice,
    fresh: Seq<char>,
    now: i64,
    compile: spec_fn(DispatchSource, Result<CompiledAttempt, StoreError>) -> bool,
    r: Result<Option<PollAction>, StoreError>,
    a: int,
)
    requires
        polled(before, after, choice, fresh, now, compile, r),
        choice is Cancel || choice is Redeliver || choice is Full || choice is Idle,
        0 <= a < before.attempts@.len(),
    ensures
        choice is Full || choice is Idle ==> r == Ok::<Option<PollAction>, StoreError>(None) && after == before,
        choice is Cancel && choice->Cancel_0 == a ==> {
            &&& after == before
            &&& r is Ok && r->Ok_0 is Some
            &&& r->Ok_0->0 is CancelAttempt
            &&& r->Ok_0->0->CancelAttempt_run_id == before.attempts@[a].record.run_id
            &&& r->Ok_0->0->CancelAttempt_attempt_no == before.attempts@[a].record.attempt_no
            &&& r->Ok_0->0->CancelAttempt_spec_hash == before.attempts@[a].record.spec_hash
        },
        choice is Redeliver && choice->Redeliver_0 == a ==> {
            &&& r is Ok && r->Ok_0 is Some
            &&& r->Ok_0->0 is StartAttempt
            &&& r->Ok_0->0->StartAttempt_run_id == before.attempts@[a].record.run_id
            &&& r->Ok_0->0->StartAttempt_attempt_no == before.attempts@[a].record.attempt_no
            &&& r->Ok_0->0->StartAttempt_spec_hash == before.attempts@[a].record.spec_hash
            &&& r->Ok_0->0->StartAttempt_spec_json == before.attempts@[a].record.spec_json
            &&& after.runs@ == before.runs@
            &&& after.schedules@ == before.schedules@
            &&& after.attempts@.len() == before.attempts@.len()
            &&& after.attempts@[a].record == before.attempts@[a].record
            &&& after.attempts@[a].last_dispatch_at_ms == Some(now)
            &&& before.attempts@[a].dispatch_count < u64::MAX ==> after.attempts@[a].dispatch_count
                == before.attempts@[a].dispatch_count + 1
        },
        choice is Redeliver && choice->Redeliver_0 != a && choice->Redeliver_0 < before.attempts@.len() ==> after.attempts@[a] == before.attempts@[a],
{
}

/// What a run's next attempt is compiled from is the run's own: its identifier, its next number, and the
/// configuration of the mirror in the generation that the run was made for; what is handed out is kept
/// as an attempt that was handed out once, and the run counts it and waits for no retry.
pub proof fn law_runs_are_handed_out_with_their_own_configuration(
    before: Store,
    after: Store,
    node: Seq<char>,
    choice: PollChoice,
    fresh: Seq<char>,
    now: i64,
    compile: spec_fn(DispatchSource, Result<CompiledAttempt, StoreError>) -> bool,
    action: PollAction,
    j: int,
    g: int,
)
    requires
        before.wf(),
        is_next(before, node, now, choice),
        polled(before, after, choice, fresh, now, compile, Ok(Some(action))),
        choice == PollChoice::Manual(j as usize) || choice == PollChoice::Retry(j as usize),
        0 <= j < before.runs@.len(),
        j <= usize::MAX,
        0 <= g < before.generations@.len(),
        before.generations@[g].mirror_name@ == before.runs@[j].record.mirror_name@,
        before.generations@[g].generation == before.runs@[j].record.mirror_generation,
    ensures
        ({
            let run = before.runs@[j].record;
            let is = after.runs@[j];
            let last = after.attempts@.last();
            let number: int = if choice is Manual { 1 } else { before.runs@[j].attempt_count + 1 };
            &&& action is StartAttempt
            &&& action->StartAttempt_run_id == run.id
            &&& action->StartAttempt_attempt_no == number
            &&& action->StartAttempt_mirror_name@ == run.mirror_name@
            &&& after.attempts@.drop_last() == before.attempts@
            &&& last.record.run_id == run.id
            &&& last.record.attempt_no == number
            &&& last.record.state == AttemptState::Queued
            &&& last.record.spec_hash == action->StartAttempt_spec_hash
            &&& last.record.spec_json == action->StartAttempt_spec_json
            &&& last.record.created_at_ms == now
            &&& last.record.last_event_sequence == 0
            &&& last.dispatch_count == 1
            &&& last.last_dispatch_at_ms == Some(now)
            &&& is.attempt_count == number
            &&& is.record.retry_due_at_ms is None
            &&& is.record.id == run.id
            &&& is.record.state == run.state
            &&& is.record.owner_node == run.owner_node
            &&& is.record.mirror_name == run.mirror_name
            &&& is.record.mirror_generation == run.mirror_generation
            &&& run.trigger == RunTrigger::Manual ==> is.record.max_attempts == run.max_attempts
                && is.record.retry_delay_ms == run.retry_delay_ms
            &&& after.schedules@ == before.schedules@
            &&& after.mirrors == before.mirrors
            &&& after.runs@.len() == before.runs@.len()
            &&& forall|o: int| 0 <= o < before.runs@.len() && o != j ==> #[trigger] after.runs@[o] == before.runs@[o]
            &&& exists|source: DispatchSource, compiled: CompiledAttempt|
                #[trigger] answers(compile, source, Ok(compiled)) && source.run_id == run.id && source.attempt_no == number
                    && source.mirror_name == run.mirror_name && source.mirror_generation == run.mirror_generation
                    && source.config_toml == before.generations@[g].config_toml && compiled.spec_hash
                    == last.record.spec_hash && compiled.spec_json == last.record.spec_json
        }),
{
    lookup::lemma_own_generation(before.generations@, g);
    let (source, outcome) = choose|source: DispatchSource, outcome: Result<CompiledAttempt, StoreError>|
        source_is(before, choice, fresh, source) && #[trigger] answers(compile, source, outcome) && match outcome {
            Err(error) => after == before && Ok::<Option<PollAction>, StoreError>(Some(action)) == Err::<
                Option<PollAction>,
                StoreError,
            >(error),
            Ok(compiled) => {
                &&& handed_out(before, after, choice, source, compiled, now)
                &&& starts(
                    action,
                    attempt_queued(source.run_id, source.attempt_no, compiled, now).record,
                    source.mirror_name@,
                )
            },
        };
    let compiled = outcome->Ok_0;
    assert(answers(compile, source, Ok(compiled)));
    assert(after.attempts@.drop_last() == before.attempts@);
    if choice is Retry {
        assert(retry_ready(before, node, now, j));
    }
}

/// A waiting schedule comes to a run of its mirror as it stands: in the current generation, on the
/// mirror's node, due since the schedule waited, with the limits of the configuration; the schedule no
/// longer waits and is otherwise as it was.
pub proof fn law_schedules_come_to_runs_of_their_mirror(
    before: Store,
    after: Store,
    node: Seq<char>,
    choice: PollChoice,
    fresh: Seq<char>,
    now: i64,
    compile: spec_fn(DispatchSource, Result<CompiledAttempt, StoreError>) -> bool,
    action: PollAction,
    k: int,
    m: int,
    g: int,
)
    requires
        before.wf(),
        is_next(before, node, now, choice),
        polled(before, after, choice, fresh, now, compile, Ok(Some(action))),
        choice == PollChoice::Scheduled(k as usize),
        0 <= k < before.schedules@.len(),
        k <= usize::MAX,
        0 <= m < before.mirrors@.len(),
        before.mirrors@[m].name@ == before.schedules@[k].mirror_name@,
        0 <= g < before.generations@.len(),
        before.generations@[g].mirror_name@ == before.mirrors@[m].name@,
        before.generations@[g].generation == before.mirrors@[m].current_generation,
    ensures
        ({
            let made = after.runs@.last();
            let last = after.attempts@.last();
            let was = before.schedules@[k];
            let is = after.schedules@[k];
            &&& after.runs@.drop_last() == before.runs@
            &&& made.record.id@ == fresh
            &&& made.record.mirror_name@ == before.mirrors@[m].name@
            &&& made.record.mirror_generation == before.mirrors@[m].current_generation
            &&& made.record.owner_node@ == node
            &&& made.record.trigger == RunTrigger::Scheduled
            &&& made.record.state == RunState::Pending
            &&& made.record.created_at_ms == now
            &&& made.record.scheduled_for_at_ms == was.runtime.catch_up_since_ms
            &&& made.record.retry_due_at_ms is None
            &&& made.record.cancel_requested_at_ms is None
            &&& made.record.started_at_ms is None
            &&& made.record.finished_at_ms is None
            &&& made.attempt_count == 1
            &&& made.manual_request_id is None
            &&& action is StartAttempt
            &&& action->StartAttempt_run_id@ == fresh
            &&& action->StartAttempt_attempt_no == 1
            &&& action->StartAttempt_mirror_name@ == before.mirrors@[m].name@
            &&& after.attempts@.drop_last() == before.attempts@
            &&& last.record.run_id@ == fresh
            &&& last.record.attempt_no == 1
            &&& last.record.state == AttemptState::Queued
            &&& last.record.spec_hash == action->StartAttempt_spec_hash
            &&& last.record.spec_json == action->StartAttempt_spec_json
            &&& last.dispatch_count == 1
            &&& last.last_dispatch_at_ms == Some(now)
            &&& is.mirror_name == was.mirror_name
            &&& is.schedule_hash == was.schedule_hash
            &&& is.runtime.next_due_at_ms == was.runtime.next_due_at_ms
            &&& is.runtime.last_evaluated_at_ms == was.runtime.last_evaluated_at_ms
            &&& is.runtime.catch_up_pending == false
            &&& is.runtime.catch_up_since_ms is None
            &&& after.schedules@.len() == before.schedules@.len()
            &&& forall|o: int|
                0 <= o < before.schedules@.len() && o != k ==> #[trigger] after.schedules@[o] == before.schedules@[o]
            &&& exists|source: DispatchSource, compiled: CompiledAttempt|
                #[trigger] answers(compile, source, Ok(compiled)) && source.run_id@ == fresh && source.attempt_no == 1
                    && source.mirror_name@ == before.mirrors@[m].name@ && source.mirror_generation
                    == before.mirrors@[m].current_generation && source.config_toml == before.generations@[g].config_toml
                    && compiled.spec_hash == last.record.spec_hash && compiled.spec_json == last.record.spec_json
                    && made.record.max_attempts == compiled.policy.max_attempts && made.record.retry_delay_ms
                    == compiled.policy.retry_delay_ms
        }),
{
    lookup::lemma_own_mirror(before.mirrors@, m);
    lookup::lemma_own_generation(before.generations@, g);
    assert(schedule_ready(before, node, k));
    let (source, outcome) = choose|source: DispatchSource, outcome: Result<CompiledAttempt, StoreError>|
        source_is(before, choice, fresh, source) && #[trigger] answers(compile, source, outcome) && match outcome {
            Err(error) => after == before && Ok::<Option<PollAction>, StoreError>(Some(action)) == Err::<
                Option<PollAction>,
                StoreError,
            >(error),
            Ok(compiled) => {
                &&& handed_out(before, after, choice, source, compiled, now)
                &&& starts(
                    action,
                    attempt_queued(source.run_id, source.attempt_no, compiled, now).record,
                    source.mirror_name@,
                )
            },
        };
    let compiled = outcome->Ok_0;
    assert(answers(compile, source, Ok(compiled)));
    assert(after.attempts@.drop_last() == before.attempts@);
    assert(after.runs@.drop_last() == before.runs@);
}

} // verus!
