//! Manual runs: asked for under a request identifier, made at most once.
use super::asked::answers;
use super::asked::reads_as;
use super::dispatch::RunPolicySnapshot;
use super::events;
use super::poll;
use super::tables;
use super::tables::MirrorRow;
use super::tables::RunRecord;
use super::tables::RunRow;
use super::tables::ScheduleRow;
use super::tables::Store;
use super::tables::StoreError;
use super::wellformed;
use crate::domain::ids::RunId;
use crate::domain::schedule::RunTrigger;
use crate::domain::state::RunState;
use crate::text;
use vstd::prelude::*;

verus! {

/// The place of the run that answers a request.
pub open spec fn request_index(rows: Seq<RunRow>, request_id: Seq<char>) -> Option<int>
    decreases rows.len(),
{
    if rows.len() == 0 {
        None
    } else if rows.last().manual_request_id is Some && rows.last().manual_request_id->0@ == request_id {
        Some(rows.len() - 1)
    } else {
        request_index(rows.drop_last(), request_id)
    }
}

/// What the place of a request means.
pub proof fn lemma_request_index(rows: Seq<RunRow>, request_id: Seq<char>)
    ensures
        match request_index(rows, request_id) {
            Some(i) => 0 <= i < rows.len() && rows[i].manual_request_id is Some && rows[i].manual_request_id->0@
                == request_id,
            None => forall|i: int|
                0 <= i < rows.len() ==> !((#[trigger] rows[i]).manual_request_id is Some
                    && rows[i].manual_request_id->0@ == request_id),
        },
    decreases rows.len(),
{
    if rows.len() > 0 && !(rows.last().manual_request_id is Some && rows.last().manual_request_id->0@ == request_id) {
        lemma_request_index(rows.drop_last(), request_id);
        assert forall|i: int| 0 <= i < rows.len() && request_index(rows, request_id) is None implies !((
        #[trigger] rows[i]).manual_request_id is Some && rows[i].manual_request_id->0@ == request_id) by {
            if i < rows.len() - 1 {
                assert(rows.drop_last()[i] == rows[i]);
            }
        }
    }
}

fn find_run_by_request(rows: &Vec<RunRow>, request_id: &str) -> (r: Option<usize>)
    ensures
        match r {
            Some(i) => request_index(rows@, request_id@) == Some(i as int) && i < rows.len(),
            None => request_index(rows@, request_id@) is None,
        },
{
    let mut n: usize = rows.len();
    assert(rows@.take(n as int) == rows@);
    while n > 0
        invariant
            n <= rows.len(),
            request_index(rows@, request_id@) == request_index(rows@.take(n as int), request_id@),
        decreases n,
    {
        assert(rows@.take(n as int).drop_last() == rows@.take(n - 1));
        if text::same_opt(&rows[n - 1].manual_request_id, request_id) {
            return Some(n - 1);
        }
        n = n - 1;
    }
    None
}

/// A run that was asked for.
pub open spec fn manual_run(
    row: RunRow,
    id: Seq<char>,
    mirror: MirrorRow,
    request_id: Seq<char>,
    policy: RunPolicySnapshot,
    now: i64,
) -> bool {
    &&& row.record.id@ == id
    &&& row.manual_request_id is Some
    &&& row.manual_request_id->0@ == request_id
    &&& row == (RunRow {
        record: RunRecord {
            id: row.record.id,
            mirror_name: mirror.name,
            mirror_generation: mirror.current_generation,
            owner_node: mirror.owner_node,
            trigger: RunTrigger::Manual,
            state: RunState::Pending,
            created_at_ms: now,
            started_at_ms: None,
            finished_at_ms: None,
            final_exit_code: None,
            failure_kind: None,
            failure_message: None,
            max_attempts: policy.max_attempts,
            retry_delay_ms: policy.retry_delay_ms,
            scheduled_for_at_ms: None,
            retry_due_at_ms: None,
            cancel_requested_at_ms: None,
        },
        attempt_count: 0,
        manual_request_id: row.manual_request_id,
    })
}

/// The schedules with that of one mirror no longer waiting.
pub open spec fn intents_cleared(before: Seq<ScheduleRow>, mirror: Seq<char>) -> Seq<ScheduleRow> {
    match tables::schedule_index(before, mirror) {
        Some(k) => before.update(k, poll::intent_cleared(before[k])),
        None => before,
    }
}

/// The tables after a run of mirror `m` has been made.
pub open spec fn manual_run_made(
    before: Store,
    after: Store,
    m: int,
    id: Seq<char>,
    request_id: Seq<char>,
    policy: RunPolicySnapshot,
    now: i64,
) -> bool {
    &&& events::only_runs_change(before, after)
    &&& after.attempts == before.attempts
    &&& after.runs@ == before.runs@.push(after.runs@.last())
    &&& manual_run(after.runs@.last(), id, before.mirrors@[m], request_id, policy, now)
    &&& after.schedules@ == intents_cleared(before.schedules@, before.mirrors@[m].name@)
}

/// What a request for a run comes to, given the identifier of a run that may have to be made.
pub open spec fn manual_outcome(
    before: Store,
    after: Store,
    mirror: Seq<char>,
    request_id: Seq<char>,
    now: i64,
    id: Seq<char>,
    policy: spec_fn(Seq<char>, Result<RunPolicySnapshot, StoreError>) -> bool,
    r: Result<RunRecord, StoreError>,
) -> bool {
    match request_index(before.runs@, request_id) {
        Some(i) => {
            &&& after == before
            &&& if before.runs@[i].record.mirror_name@ == mirror {
                r == Ok::<RunRecord, StoreError>(before.runs@[i].record)
            } else {
                r == Err::<RunRecord, StoreError>(StoreError::RequestConflict)
            }
        },
        None => match tables::mirror_index(before.mirrors@, mirror) {
            None => after == before && r == Err::<RunRecord, StoreError>(StoreError::MirrorNotFound),
            Some(m) => if !before.mirrors@[m].managed || !before.mirrors@[m].enabled {
                after == before && r == Err::<RunRecord, StoreError>(StoreError::MirrorIneligible)
            } else if tables::has_active_run(before.runs@, mirror) {
                &&& after == before
                &&& r matches Err(StoreError::MirrorBusy { run_id })
                &&& exists|i: int|
                    0 <= i < before.runs@.len() && (#[trigger] before.runs@[i]).record.mirror_name@ == mirror
                        && tables::is_active(before.runs@[i]) && run_id == before.runs@[i].record.id
            } else {
                exists|outcome: Result<RunPolicySnapshot, StoreError>|
                    #[trigger] answers(
                        policy,
                        poll::config_of(before, mirror, before.mirrors@[m].current_generation)@,
                        outcome,
                    ) && match outcome {
                        Err(error) => after == before && r == Err::<RunRecord, StoreError>(error),
                        Ok(limits) => if wellformed::has_run(before.runs@, id) {
                            after == before && r matches Err(StoreError::Database(_))
                        } else {
                            &&& manual_run_made(before, after, m, id, request_id, limits, now)
                            &&& r == Ok::<RunRecord, StoreError>(after.runs@.last().record)
                        },
                    }
            },
        },
    }
}

impl Store {
    fn clear_intent(&mut self, mirror: &str)
        requires
            old(self).wf(),
        ensures
            final(self).wf(),
            events::only_runs_change(*old(self), *final(self)),
            final(self).runs == old(self).runs,
            final(self).attempts == old(self).attempts,
            final(self).schedules@ == intents_cleared(old(self).schedules@, mirror@),
    {
        if let Some(k) = tables::find_schedule(&self.schedules, mirror) {
            let ghost before = self.schedules@;
            let row: &mut ScheduleRow = &mut self.schedules[k];
            row.runtime.catch_up_pending = false;
            row.runtime.catch_up_since_ms = None;
            proof {
                events::lemma_schedule_updated_in_place(before, self.schedules@, k as int);
            }
        }
    }

    /// Makes a run of mirror `m`.
    pub fn make_manual_run(&mut self, m: usize, id: &str, request_id: &str, policy: RunPolicySnapshot, now: i64)
        requires
            old(self).wf(),
            m < old(self).mirrors@.len(),
            !tables::has_active_run(old(self).runs@, old(self).mirrors@[m as int].name@),
            !wellformed::has_run(old(self).runs@, id@),
            request_index(old(self).runs@, request_id@) is None,
        ensures
            final(self).wf(),
            manual_run_made(*old(self), *final(self), m as int, id@, request_id@, policy, now),
    {
        let ghost start = *self;
        let row: RunRow = RunRow {
            record: RunRecord {
                id: id.to_owned(),
                mirror_name: self.mirrors[m].name.clone(),
                mirror_generation: self.mirrors[m].current_generation,
                owner_node: self.mirrors[m].owner_node.clone(),
                trigger: RunTrigger::Manual,
                state: RunState::Pending,
                created_at_ms: now,
                started_at_ms: None,
                finished_at_ms: None,
                final_exit_code: None,
                failure_kind: None,
                failure_message: None,
                max_attempts: policy.max_attempts,
                retry_delay_ms: policy.retry_delay_ms,
                scheduled_for_at_ms: None,
                retry_due_at_ms: None,
                cancel_requested_at_ms: None,
            },
            attempt_count: 0,
            manual_request_id: Some(request_id.to_owned()),
        };
        proof {
            assert(start.mirrors@[m as int].name@ == row.record.mirror_name@);
            lemma_request_index(start.runs@, request_id@);
            poll::lemma_run_added(start, row);
        }
        let mirror: String = self.mirrors[m].name.clone();
        self.runs.push(row);
        assert(self.runs@ == start.runs@.push(self.runs@.last()));
        self.clear_intent(mirror.as_str());
    }

    /// Asks for a run of a mirror under a request identifier; `id` is that of the run to be made, and
    /// `policy` reads the run's limits from the mirror's configuration.
    pub fn create_manual_run_as<F: FnOnce(&str) -> Result<RunPolicySnapshot, StoreError>>(
        &mut self,
        mirror: &str,
        request_id: &str,
        now: i64,
        id: &str,
        policy: F,
    ) -> (r: Result<RunRecord, StoreError>)
        requires
            old(self).wf(),
            forall|config: &str| #[trigger] call_requires(policy, (config,)),
        ensures
            final(self).wf(),
            manual_outcome(
                *old(self),
                *final(self),
                mirror@,
                request_id@,
                now,
                id@,
                |config: Seq<char>, outcome: Result<RunPolicySnapshot, StoreError>|
                    reads_as(policy, config, outcome),
                r,
            ),
    {
        proof {
            lemma_request_index(self.runs@, request_id@);
            tables::lemma_run_index(self.runs@, id@);
        }
        if let Some(i) = find_run_by_request(&self.runs, request_id) {
            if text::same(self.runs[i].record.mirror_name.as_str(), mirror) {
                return Ok(self.runs[i].record.clone());
            }
            return Err(StoreError::RequestConflict);
        }
        let m: usize = match tables::find_mirror(&self.mirrors, mirror) {
            None => {
                return Err(StoreError::MirrorNotFound);
            },
            Some(found) => found,
        };
        if !self.mirrors[m].managed || !self.mirrors[m].enabled {
            return Err(StoreError::MirrorIneligible);
        }
        if let Some(i) = tables::find_active_run(&self.runs, mirror) {
            return Err(StoreError::MirrorBusy { run_id: self.runs[i].record.id.clone() });
        }
        proof {
            assert(wellformed::has_generation(
                self.generations@,
                self.mirrors@[m as int].name@,
                self.mirrors@[m as int].current_generation,
            ));
            tables::lemma_generation_index(
                self.generations@,
                self.mirrors@[m as int].name@,
                self.mirrors@[m as int].current_generation,
            );
        }
        let g: usize = tables::find_generation(
            &self.generations,
            self.mirrors[m].name.as_str(),
            self.mirrors[m].current_generation,
        ).unwrap();
        let config: &str = self.generations[g].config_toml.as_str();
        let outcome: Result<RunPolicySnapshot, StoreError> = policy(config);
        proof {
            let answerer = |config: Seq<char>, outcome: Result<RunPolicySnapshot, StoreError>|
                reads_as(policy, config, outcome);
            assert(call_ensures(policy, (config,), outcome));
            assert(config@ == poll::config_of(*old(self), mirror@, old(self).mirrors@[m as int].current_generation)@);
            assert(reads_as(policy, config@, outcome));
            assert(answers(
                answerer,
                poll::config_of(*old(self), mirror@, old(self).mirrors@[m as int].current_generation)@,
                outcome,
            ));
        }
        let limits: RunPolicySnapshot = match outcome {
            Err(error) => {
                return Err(error);
            },
            Ok(value) => value,
        };
        if tables::find_run(&self.runs, id).is_some() {
            return Err(StoreError::Database("run identifier is already in use".to_owned()));
        }
        self.make_manual_run(m, id, request_id, limits, now);
        let last: usize = self.runs.len() - 1;
        Ok(self.runs[last].record.clone())
    }

    /// Asks for a run of a mirror under a request identifier. The identifier of a run that is made
    /// rests on the time and on chance.
    pub fn create_manual_run<F: FnOnce(&str) -> Result<RunPolicySnapshot, StoreError>>(
        &mut self,
        mirror: &str,
        request_id: &str,
        now: i64,
        policy: F,
    ) -> (r: Result<RunRecord, StoreError>)
        requires
            old(self).wf(),
            forall|config: &str| #[trigger] call_requires(policy, (config,)),
        ensures
            final(self).wf(),
            exists|id: RunId|
                manual_outcome(
                    *old(self),
                    *final(self),
                    mirror@,
                    request_id@,
                    now,
                    #[trigger] id.text(),
                    |config: Seq<char>, outcome: Result<RunPolicySnapshot, StoreError>|
                        reads_as(policy, config, outcome),
                    r,
                ),
    {
        let id: RunId = RunId::new();
        let fresh: String = id.to_text();
        self.create_manual_run_as(mirror, request_id, now, fresh.as_str(), policy)
    }
}

/// Asking again under the same identifier finds the run that the first request made.
pub proof fn law_manual_requests_are_idempotent(
    before: Store,
    after: Store,
    m: int,
    id: Seq<char>,
    request_id: Seq<char>,
    policy: RunPolicySnapshot,
    now: i64,
)
    requires
        before.wf(),
        0 <= m < before.mirrors@.len(),
        manual_run_made(before, after, m, id, request_id, policy, now),
    ensures
        request_index(after.runs@, request_id) == Some(after.runs@.len() - 1),
        after.runs@.last().record.mirror_name@ == before.mirrors@[m].name@,
{
}

/// A mirror with a run in flight is not given another.
pub proof fn law_manual_runs_do_not_pile_up(
    before: Store,
    after: Store,
    m: int,
    id: Seq<char>,
    request_id: Seq<char>,
    policy: RunPolicySnapshot,
    now: i64,
)
    requires
        manual_run_made(before, after, m, id, request_id, policy, now),
    ensures
        tables::has_active_run(after.runs@, before.mirrors@[m].name@),
{
    let last = after.runs@.len() - 1;
    assert(after.runs@[last].record.mirror_name@ == before.mirrors@[m].name@);
}

/// A request that was not made before is refused for a mirror that is not known, not in force, or has a
/// run that has not ended, and for no other reason that the tables hold; a refusal changes nothing.
pub proof fn law_manual_runs_are_refused_for_what_the_tables_hold(
    before: Store,
    after: Store,
    mirror: Seq<char>,
    request_id: Seq<char>,
    now: i64,
    id: Seq<char>,
    policy: spec_fn(Seq<char>, Result<RunPolicySnapshot, StoreError>) -> bool,
    r: Result<RunRecord, StoreError>,
)
    requires
        before.wf(),
        manual_outcome(before, after, mirror, request_id, now, id, policy, r),
        forall|i: int|
            0 <= i < before.runs@.len() ==> !((#[trigger] before.runs@[i]).manual_request_id is Some
                && before.runs@[i].manual_request_id->0@ == request_id),
    ensures
        r is Err ==> after == before,
        (forall|m: int| 0 <= m < before.mirrors@.len() ==> (#[trigger] before.mirrors@[m]).name@ != mirror) ==> r == Err::<
            RunRecord,
            StoreError,
        >(StoreError::MirrorNotFound),
        forall|m: int|
            0 <= m < before.mirrors@.len() && (#[trigger] before.mirrors@[m]).name@ == mirror ==> {
                let in_force = before.mirrors@[m].managed && before.mirrors@[m].enabled;
                let busy = exists|i: int|
                    0 <= i < before.runs@.len() && (#[trigger] before.runs@[i]).record.mirror_name@ == mirror && (
                    before.runs@[i].record.state == RunState::Pending || before.runs@[i].record.state == RunState::Running);
                &&& !in_force ==> r == Err::<RunRecord, StoreError>(StoreError::MirrorIneligible)
                &&& in_force && busy ==> r is Err && r->Err_0 is MirrorBusy && exists|i: int|
                    0 <= i < before.runs@.len() && (#[trigger] before.runs@[i]).record.mirror_name@ == mirror && (
                    before.runs@[i].record.state == RunState::Pending || before.runs@[i].record.state == RunState::Running)
                        && r->Err_0->run_id == before.runs@[i].record.id
                &&& r is Ok ==> in_force && !busy
            },
{
    if request_index(before.runs@, request_id) is Some {
        lemma_request_index_found(before.runs@, request_id);
    }
    tables::lemma_mirror_index(before.mirrors@, mirror);
    assert forall|m: int|
        0 <= m < before.mirrors@.len() && (#[trigger] before.mirrors@[m]).name@ == mirror implies tables::mirror_index(
        before.mirrors@,
        mirror,
    ) == Some(m) by {
        super::lookup::lemma_own_mirror(before.mirrors@, m);
    }
}

proof fn lemma_request_index_found(rows: Seq<RunRow>, request_id: Seq<char>)
    requires
        request_index(rows, request_id) is Some,
    ensures
        ({
            let i = request_index(rows, request_id)->0;
            0 <= i < rows.len() && rows[i].manual_request_id is Some && rows[i].manual_request_id->0@ == request_id
        }),
    decreases rows.len(),
{
    if !(rows.last().manual_request_id is Some && rows.last().manual_request_id->0@ == request_id) {
        lemma_request_index_found(rows.drop_last(), request_id);
    }
}

proof fn lemma_request_index_finds(rows: Seq<RunRow>, request_id: Seq<char>, i: int)
    requires
        0 <= i < rows.len(),
        rows[i].manual_request_id is Some,
        rows[i].manual_request_id->0@ == request_id,
    ensures
        request_index(rows, request_id) is Some,
    decreases rows.len(),
{
    if i < rows.len() - 1 {
        lemma_request_index_finds(rows.drop_last(), request_id, i);
    }
}

/// A run that is made for a request is the mirror's as it stands then: a manual run of its current
/// configuration on its node, which waits with nothing done, with the limits that the configuration
/// gives. The mirror's schedule waits for nothing more, and nothing else changes.
pub proof fn law_manual_runs_are_of_the_mirror_as_it_stands(
    before: Store,
    after: Store,
    mirror: Seq<char>,
    request_id: Seq<char>,
    now: i64,
    id: Seq<char>,
    policy: spec_fn(Seq<char>, Result<RunPolicySnapshot, StoreError>) -> bool,
    made: RunRecord,
    m: int,
    g: int,
)
    requires
        before.wf(),
        manual_outcome(before, after, mirror, request_id, now, id, policy, Ok(made)),
        forall|i: int|
            0 <= i < before.runs@.len() ==> !((#[trigger] before.runs@[i]).manual_request_id is Some
                && before.runs@[i].manual_request_id->0@ == request_id),
        0 <= m < before.mirrors@.len(),
        before.mirrors@[m].name@ == mirror,
        0 <= g < before.generations@.len(),
        before.generations@[g].mirror_name@ == mirror,
        before.generations@[g].generation == before.mirrors@[m].current_generation,
    ensures
        after.runs@.len() == before.runs@.len() + 1,
        forall|o: int| 0 <= o < before.runs@.len() ==> #[trigger] after.runs@[o] == before.runs@[o],
        after.runs@[before.runs@.len() as int].record == made,
        after.runs@[before.runs@.len() as int].attempt_count == 0,
        after.runs@[before.runs@.len() as int].manual_request_id is Some,
        after.runs@[before.runs@.len() as int].manual_request_id->0@ == request_id,
        made.id@ == id,
        made.mirror_name@ == mirror,
        made.mirror_generation == before.mirrors@[m].current_generation,
        made.owner_node@ == before.mirrors@[m].owner_node@,
        made.trigger == RunTrigger::Manual,
        made.state == RunState::Pending,
        made.created_at_ms == now,
        made.started_at_ms is None,
        made.finished_at_ms is None,
        made.final_exit_code is None,
        made.failure_kind is None,
        made.failure_message is None,
        made.scheduled_for_at_ms is None,
        made.retry_due_at_ms is None,
        made.cancel_requested_at_ms is None,
        exists|limits: RunPolicySnapshot|
            #[trigger] answers(policy, before.generations@[g].config_toml@, Ok(limits)) && made.max_attempts
                == limits.max_attempts && made.retry_delay_ms == limits.retry_delay_ms,
        after.attempts@ == before.attempts@,
        after.schedules@.len() == before.schedules@.len(),
        forall|k: int|
            0 <= k < before.schedules@.len() ==> if before.schedules@[k].mirror_name@ == mirror {
                &&& (#[trigger] after.schedules@[k]).runtime.catch_up_pending == false
                &&& after.schedules@[k].runtime.catch_up_since_ms is None
                &&& after.schedules@[k].runtime.next_due_at_ms == before.schedules@[k].runtime.next_due_at_ms
                &&& after.schedules@[k].runtime.last_evaluated_at_ms == before.schedules@[k].runtime.last_evaluated_at_ms
                &&& after.schedules@[k].schedule_hash == before.schedules@[k].schedule_hash
            } else {
                after.schedules@[k] == before.schedules@[k]
            },
{
    if request_index(before.runs@, request_id) is Some {
        lemma_request_index_found(before.runs@, request_id);
    }
    super::lookup::lemma_own_mirror(before.mirrors@, m);
    super::lookup::lemma_own_generation(before.generations@, g);
    tables::lemma_schedule_index(before.schedules@, mirror);
    assert forall|k: int|
        0 <= k < before.schedules@.len() && (#[trigger] before.schedules@[k]).mirror_name@ == mirror implies tables::schedule_index(
        before.schedules@,
        mirror,
    ) == Some(k) by {
        super::lookup::lemma_own_schedule(before.schedules@, k);
    }
}

/// A request that was made before changes nothing: it is answered with its run where it names the same
/// mirror, and refused where it names another.
pub proof fn law_requests_name_one_run(
    before: Store,
    after: Store,
    mirror: Seq<char>,
    request_id: Seq<char>,
    now: i64,
    id: Seq<char>,
    policy: spec_fn(Seq<char>, Result<RunPolicySnapshot, StoreError>) -> bool,
    r: Result<RunRecord, StoreError>,
    i: int,
)
    requires
        before.wf(),
        manual_outcome(before, after, mirror, request_id, now, id, policy, r),
        0 <= i < before.runs@.len(),
        before.runs@[i].manual_request_id is Some,
        before.runs@[i].manual_request_id->0@ == request_id,
    ensures
        after == before,
        r is Ok ==> r->Ok_0.mirror_name@ == mirror,
        r is Err ==> r->Err_0 == StoreError::RequestConflict,
        exists|o: int|
            0 <= o < before.runs@.len() && (#[trigger] before.runs@[o]).manual_request_id is Some
                && before.runs@[o].manual_request_id->0@ == request_id && (r is Ok <==> before.runs@[o].record.mirror_name@
                == mirror) && (r is Ok ==> r->Ok_0 == before.runs@[o].record),
{
    lemma_request_index_finds(before.runs@, request_id, i);
    lemma_request_index_found(before.runs@, request_id);
}

} // verus!
