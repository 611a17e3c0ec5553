//! What the server does for operators, and what it takes from agents about attempts.
use super::access;
use super::access::owns_attempt;
use super::access::presents;
use super::access::unauthorized;
use super::failure;
use super::failure::failure;
use super::failure::Failure;
use super::failure::FailureView;
use super::metrics::AppMetrics;
use super::requests::answer;
use super::requests::failed_as;
use super::requests::refusal_counted;
use super::requests::ServerState;
use super::services;
use super::services::borrowed_view;
use super::views;
use crate::domain::bundle::in_order;
use crate::domain::config::CanonicalBundle;
use crate::domain::config::ConfigError;
use crate::domain::config::MirrorDocument;
use crate::domain::ids;
use crate::domain::ids::NodeName;
use crate::domain::ids::RunId;
use crate::domain::schedule::RunTrigger;
use crate::domain::state::AttemptEvent;
use crate::domain::state::AttemptState;
use crate::domain::state::RunState;
use crate::outside;
use crate::protocol::BindingReplaceRequest;
use crate::protocol::EventRequest;
use crate::protocol::EventResponse;
use crate::protocol::ManualRunRequest;
use crate::protocol::ValidationResponse;
use crate::store::apply;
use crate::store::cancellation;
use crate::store::cancellation::CancellationApplyResult;
use crate::store::credentials;
use crate::store::credentials::AuthenticatedCredential;
use crate::store::dispatch::RunPolicySnapshot;
use crate::store::events;
use crate::store::events::AttemptEventApplyResult;
use crate::store::events::TerminalDecision;
use crate::store::events::TerminalDecisionSource;
use crate::store::manual;
use crate::store::planning;
use crate::store::planning::ChangeKind;
use crate::store::planning::ConfigPlan;
use crate::store::queries;
use crate::store::ranked::in_rank;
use crate::store::tables;
use crate::store::tables::CredentialRecord;
use crate::store::tables::NodeRecord;
use crate::store::tables::NodeRow;
use crate::store::tables::RunRecord;
use crate::store::tables::Store;
use crate::store::tables::StoreError;
use crate::text;
use vstd::prelude::*;

verus! {

/// What a written moment comes to: nothing where none is given, else the moment or a fault.
pub open spec fn moment_of(written: Option<Seq<char>>) -> Result<Option<i64>, FailureView> {
    match written {
        None => Ok(None),
        Some(value) => match outside::rfc3339_nanos(value) {
            Some(nanos) => Ok(Some(views::millis_of(nanos as int) as i64)),
            None => Err(failure(400, "invalid_timestamp"@, "RFC3339 required"@)),
        },
    }
}

/// The event that an agent reports, where its moments can be read; else how the report fails.
pub open spec fn reported_event(request: EventRequest) -> Result<AttemptEvent, FailureView> {
    let accepted = moment_of(text::opt_view(request.accepted_at));
    let started = moment_of(text::opt_view(request.started_at));
    let finished = moment_of(text::opt_view(request.finished_at));
    if accepted is Err {
        Err(accepted->Err_0)
    } else if started is Err {
        Err(started->Err_0)
    } else if finished is Err {
        Err(finished->Err_0)
    } else {
        Ok(
            AttemptEvent {
                event_sequence: request.event_sequence,
                state: request.state,
                agent_instance_id: request.agent_instance_id,
                accepted_at_ms: accepted->Ok_0,
                started_at_ms: started->Ok_0,
                finished_at_ms: finished->Ok_0,
                exit_code: request.exit_code,
                failure_kind: request.failure_kind,
                failure_message: request.failure_message,
            },
        )
    }
}

fn read_moment(written: &Option<String>) -> (r: Result<Option<i64>, Failure>)
    ensures
        match r {
            Ok(moment) => moment_of(text::opt_view(*written)) == Ok::<Option<i64>, FailureView>(moment),
            Err(error) => moment_of(text::opt_view(*written)) == Err::<Option<i64>, FailureView>(error@),
        },
{
    let value: Option<&str> = match written {
        Some(value) => Some(value.as_str()),
        None => None,
    };
    views::parse_time(value)
}

fn read_event(request: &EventRequest) -> (r: Result<AttemptEvent, Failure>)
    ensures
        match r {
            Ok(event) => reported_event(*request) == Ok::<AttemptEvent, FailureView>(event),
            Err(error) => reported_event(*request) == Err::<AttemptEvent, FailureView>(error@),
        },
{
    let accepted_at_ms: Option<i64> = match read_moment(&request.accepted_at) {
        Ok(moment) => moment,
        Err(error) => {
            return Err(error);
        },
    };
    let started_at_ms: Option<i64> = match read_moment(&request.started_at) {
        Ok(moment) => moment,
        Err(error) => {
            return Err(error);
        },
    };
    let finished_at_ms: Option<i64> = match read_moment(&request.finished_at) {
        Ok(moment) => moment,
        Err(error) => {
            return Err(error);
        },
    };
    Ok(
        AttemptEvent {
            event_sequence: request.event_sequence,
            state: request.state,
            agent_instance_id: request.agent_instance_id.clone(),
            accepted_at_ms,
            started_at_ms,
            finished_at_ms,
            exit_code: request.exit_code,
            failure_kind: request.failure_kind,
            failure_message: text::clone_opt(&request.failure_message),
        },
    )
}

/// The counters after an event was taken: the event itself, the end of an attempt where it is new,
/// and the retry that follows it.
pub open spec fn event_counted(metrics: AppMetrics, state: AttemptState, applied: AttemptEventApplyResult) -> AppMetrics {
    let counted = AppMetrics { events: metrics.events.wrapping_add(1), ..metrics };
    if !state.terminal() || !applied.newly_applied {
        counted
    } else {
        let ended = match state {
            AttemptState::Succeeded => AppMetrics {
                attempts_succeeded: counted.attempts_succeeded.wrapping_add(1),
                ..counted
            },
            AttemptState::Failed => AppMetrics { attempts_failed: counted.attempts_failed.wrapping_add(1), ..counted },
            AttemptState::TimedOut => AppMetrics {
                attempts_timed_out: counted.attempts_timed_out.wrapping_add(1),
                ..counted
            },
            AttemptState::Cancelled => AppMetrics {
                attempts_cancelled: counted.attempts_cancelled.wrapping_add(1),
                ..counted
            },
            AttemptState::Rejected => AppMetrics {
                attempts_rejected: counted.attempts_rejected.wrapping_add(1),
                ..counted
            },
            _ => AppMetrics { attempts_interrupted: counted.attempts_interrupted.wrapping_add(1), ..counted },
        };
        if applied.retry_scheduled {
            AppMetrics { retries_scheduled: ended.retries_scheduled.wrapping_add(1), ..ended }
        } else {
            ended
        }
    }
}

fn count_event(metrics: &mut AppMetrics, state: AttemptState, applied: AttemptEventApplyResult)
    ensures
        *final(metrics) == event_counted(*old(metrics), state, applied),
{
    metrics.events = metrics.events.wrapping_add(1);
    if state.is_terminal() && applied.newly_applied {
        match state {
            AttemptState::Succeeded => {
                metrics.attempts_succeeded = metrics.attempts_succeeded.wrapping_add(1);
            },
            AttemptState::Failed => {
                metrics.attempts_failed = metrics.attempts_failed.wrapping_add(1);
            },
            AttemptState::TimedOut => {
                metrics.attempts_timed_out = metrics.attempts_timed_out.wrapping_add(1);
            },
            AttemptState::Cancelled => {
                metrics.attempts_cancelled = metrics.attempts_cancelled.wrapping_add(1);
            },
            AttemptState::Rejected => {
                metrics.attempts_rejected = metrics.attempts_rejected.wrapping_add(1);
            },
            AttemptState::Interrupted | AttemptState::Queued | AttemptState::Accepted | AttemptState::Running => {
                metrics.attempts_interrupted = metrics.attempts_interrupted.wrapping_add(1);
            },
        }
        if applied.retry_scheduled {
            metrics.retries_scheduled = metrics.retries_scheduled.wrapping_add(1);
        }
    }
}

/// How a report of the agent with credential `i` is refused before the tables are asked.
pub open spec fn event_fault(
    store: Store,
    i: int,
    run_id: Seq<char>,
    attempt_no: u32,
    request: EventRequest,
) -> Option<FailureView> {
    if !owns_attempt(store, store.credentials@[i].record.node@, run_id, attempt_no) {
        Some(failure(404, "attempt_not_found"@, "not found"@))
    } else {
        match reported_event(request) {
            Ok(_) => None,
            Err(fault) => Some(fault),
        }
    }
}

/// What a report of the agent with credential `i` comes to.
pub open spec fn event_answered<P: FnOnce(&str) -> Result<MirrorDocument, String>>(
    before: Store,
    after: Store,
    state_before: ServerState,
    state_after: ServerState,
    run_id: Seq<char>,
    attempt_no: u32,
    request: EventRequest,
    now: i64,
    parse: P,
    outcome: Result<AttemptEventApplyResult, StoreError>,
    r: Result<EventResponse, Failure>,
) -> bool {
    &&& events::event_outcome(
        before,
        after,
        run_id,
        attempt_no,
        reported_event(request)->Ok_0,
        now,
        |source: TerminalDecisionSource, outcome: Result<TerminalDecision, StoreError>|
            services::terminal_outcome(source, now, parse, outcome),
        outcome,
    )
    &&& match outcome {
        Err(error) => r is Err && r->Err_0@ == failure::store_failure(error) && state_after == state_before,
        Ok(applied) => {
            &&& r == Ok::<EventResponse, Failure>(
                (EventResponse { accepted_event_sequence: applied.accepted_event_sequence }),
            )
            &&& state_after == (ServerState {
                metrics: event_counted(state_before.metrics, request.state, applied),
                ..state_before
            })
        },
    }
}

/// What a report of an agent comes to: one without a valid token is turned away and counted; one that
/// cannot be taken changes nothing; any other is asked of the tables.
pub open spec fn event_taken<P: FnOnce(&str) -> Result<MirrorDocument, String>>(
    before: Store,
    after: Store,
    state_before: ServerState,
    state_after: ServerState,
    authorization: Option<Seq<char>>,
    run_id: Seq<char>,
    attempt_no: u32,
    request: EventRequest,
    now: i64,
    parse: P,
    r: Result<EventResponse, Failure>,
) -> bool {
    ||| {
        &&& r is Err
        &&& r->Err_0@ == unauthorized()
        &&& after == before
        &&& refusal_counted(state_before, state_after)
        &&& forall|i: int| !#[trigger] presents(before.credentials@, authorization, i)
    }
    ||| exists|i: int| #[trigger]
        presents(before.credentials@, authorization, i) && match event_fault(before, i, run_id, attempt_no, request) {
            Some(fault) => r is Err && r->Err_0@ == fault && after == before && state_after == state_before,
            None => exists|outcome: Result<AttemptEventApplyResult, StoreError>| #[trigger]
                event_answered(
                    before,
                    after,
                    state_before,
                    state_after,
                    run_id,
                    attempt_no,
                    request,
                    now,
                    parse,
                    outcome,
                    r,
                ),
        }
}

/// Takes what an agent reports of an attempt of its node.
pub fn event<P: FnOnce(&str) -> Result<MirrorDocument, String>>(
    store: &mut Store,
    state: &mut ServerState,
    authorization: Option<&str>,
    run_id: &str,
    attempt_no: u32,
    request: &EventRequest,
    now: i64,
    parse: P,
) -> (r: Result<EventResponse, Failure>)
    requires
        old(store).wf(),
        forall|config: &str| #[trigger] call_requires(parse, (config,)),
    ensures
        final(store).wf(),
        event_taken(
            *old(store),
            *final(store),
            *old(state),
            *final(state),
            borrowed_view(authorization),
            run_id@,
            attempt_no,
            *request,
            now,
            parse,
            r,
        ),
{
    let ghost before = *store;
    let ghost state_before = *state;
    let credential: AuthenticatedCredential = match access::agent(store, authorization) {
        Ok(credential) => credential,
        Err(error) => {
            state.metrics.auth_failures = state.metrics.auth_failures.wrapping_add(1);
            return Err(error);
        },
    };
    let ghost i = choose|i: int|
        #[trigger] presents(before.credentials@, borrowed_view(authorization), i) && credential.node
            == before.credentials@[i].record.node;
    if let Err(error) = access::attempt_auth(store, credential.node.as_str(), run_id, attempt_no) {
        assert(event_fault(before, i, run_id@, attempt_no, *request) == Some(error@));
        return Err(error);
    }
    let reported: AttemptEvent = match read_event(request) {
        Ok(reported) => reported,
        Err(error) => {
            assert(event_fault(before, i, run_id@, attempt_no, *request) == Some(error@));
            return Err(error);
        },
    };
    let outcome: Result<AttemptEventApplyResult, StoreError> = services::apply_attempt_event(
        store,
        run_id,
        attempt_no,
        &reported,
        now,
        parse,
    );
    let ghost told = outcome;
    let r: Result<EventResponse, Failure> = match outcome {
        Err(error) => Err(Failure::of_store(error)),
        Ok(applied) => {
            count_event(&mut state.metrics, request.state, applied);
            Ok(EventResponse { accepted_event_sequence: applied.accepted_event_sequence })
        },
    };
    assert(event_fault(before, i, run_id@, attempt_no, *request) is None);
    assert(event_answered(
        before,
        *store,
        state_before,
        *state,
        run_id@,
        attempt_no,
        *request,
        now,
        parse,
        told,
        r,
    ));
    r
}

/// The counters after a cancellation: one that is new counts by whether it took effect at once.
pub open spec fn cancellation_counted(metrics: AppMetrics, result: CancellationApplyResult) -> AppMetrics {
    if !result.newly_requested {
        metrics
    } else if result.run.state == RunState::Cancelled {
        AppMetrics { cancellations_immediate: metrics.cancellations_immediate.wrapping_add(1), ..metrics }
    } else {
        AppMetrics { cancellations_dispatched: metrics.cancellations_dispatched.wrapping_add(1), ..metrics }
    }
}

/// What a cancellation comes to.
pub open spec fn cancellation_answered<P: FnOnce(&str) -> Result<MirrorDocument, String>>(
    before: Store,
    after: Store,
    metrics_before: AppMetrics,
    metrics_after: AppMetrics,
    run_id: Seq<char>,
    now: i64,
    parse: P,
    outcome: Result<CancellationApplyResult, StoreError>,
    r: Result<RunRecord, Failure>,
) -> bool {
    &&& cancellation::cancellation_outcome(
        before,
        after,
        run_id,
        now,
        |config: Seq<char>, outcome: Result<Option<i64>, StoreError>|
            services::rearm_read(parse, config, now, outcome),
        outcome,
    )
    &&& match outcome {
        Err(error) => r is Err && r->Err_0@ == failure::store_failure(error) && metrics_after == metrics_before,
        Ok(result) => r == Ok::<RunRecord, Failure>(result.run) && metrics_after == cancellation_counted(
            metrics_before,
            result,
        ),
    }
}

/// What asking to cancel a run comes to.
pub open spec fn cancel_outcome<P: FnOnce(&str) -> Result<MirrorDocument, String>>(
    before: Store,
    after: Store,
    metrics_before: AppMetrics,
    metrics_after: AppMetrics,
    run_id: Seq<char>,
    now: i64,
    parse: P,
    r: Result<RunRecord, Failure>,
) -> bool {
    &&& tables::run_index(before.runs@, run_id) is None ==> {
        &&& r is Err
        &&& r->Err_0@ == failure(404, "run_not_found"@, "not found"@)
        &&& after == before
        &&& metrics_after == metrics_before
    }
    &&& tables::run_index(before.runs@, run_id) is Some ==> exists|
        outcome: Result<CancellationApplyResult, StoreError>,
    | #[trigger]
        cancellation_answered(
            before,
            after,
            metrics_before,
            metrics_after,
            run_id,
            now,
            parse,
            outcome,
            r,
        )
}

/// Cancels a run.
pub fn cancel_run<P: FnOnce(&str) -> Result<MirrorDocument, String>>(
    store: &mut Store,
    metrics: &mut AppMetrics,
    run_id: &str,
    now: i64,
    parse: P,
) -> (r: Result<RunRecord, Failure>)
    requires
        old(store).wf(),
        forall|config: &str| #[trigger] call_requires(parse, (config,)),
    ensures
        final(store).wf(),
        cancel_outcome(*old(store), *final(store), *old(metrics), *final(metrics), run_id@, now, parse, r),
{
    if tables::find_run(&store.runs, run_id).is_none() {
        return Err(Failure::not_found("run_not_found"));
    }
    let ghost before = *store;
    let ghost counted = *metrics;
    let outcome: Result<CancellationApplyResult, StoreError> = services::request_cancellation(
        store,
        run_id,
        now,
        parse,
    );
    let ghost told = outcome;
    let r: Result<RunRecord, Failure> = match outcome {
        Err(error) => Err(Failure::of_store(error)),
        Ok(result) => {
            if result.newly_requested {
                if result.run.state == RunState::Cancelled {
                    metrics.cancellations_immediate = metrics.cancellations_immediate.wrapping_add(1);
                } else {
                    metrics.cancellations_dispatched = metrics.cancellations_dispatched.wrapping_add(1);
                }
            }
            Ok(result.run)
        },
    };
    assert(cancellation_answered(before, *store, counted, *metrics, run_id@, now, parse, told, r));
    r
}

/// What a request for a run comes to.
pub open spec fn manual_answered<P: FnOnce(&str) -> Result<MirrorDocument, String>>(
    before: Store,
    after: Store,
    mirror: Seq<char>,
    request_id: Seq<char>,
    now: i64,
    id: Seq<char>,
    parse: P,
    outcome: Result<RunRecord, StoreError>,
    r: Result<RunRecord, Failure>,
) -> bool {
    manual::manual_outcome(
        before,
        after,
        mirror,
        request_id,
        now,
        id,
        |config: Seq<char>, outcome: Result<RunPolicySnapshot, StoreError>|
            services::policy_read(parse, config, outcome),
        outcome,
    ) && failed_as(outcome, r)
}

/// What asking for a run comes to.
pub open spec fn manual_request<P: FnOnce(&str) -> Result<MirrorDocument, String>>(
    before: Store,
    after: Store,
    mirror: Seq<char>,
    request: ManualRunRequest,
    now: i64,
    parse: P,
    r: Result<RunRecord, Failure>,
) -> bool {
    &&& request.trigger != RunTrigger::Manual || request.request_id@.len() == 0 ==> r is Err && r->Err_0@ == failure(
        400,
        "invalid_request"@,
        "invalid manual request"@,
    ) && after == before
    &&& request.trigger == RunTrigger::Manual && request.request_id@.len() > 0 ==> exists|
        id: RunId,
        outcome: Result<RunRecord, StoreError>,
    |
        #[trigger] manual_answered(
            before,
            after,
            mirror,
            request.request_id@,
            now,
            id.text(),
            parse,
            outcome,
            r,
        )
}

/// Takes a request for a run of a mirror.
pub fn manual<P: FnOnce(&str) -> Result<MirrorDocument, String>>(
    store: &mut Store,
    mirror: &str,
    request: &ManualRunRequest,
    now: i64,
    parse: P,
) -> (r: Result<RunRecord, Failure>)
    requires
        old(store).wf(),
        forall|config: &str| #[trigger] call_requires(parse, (config,)),
    ensures
        final(store).wf(),
        manual_request(*old(store), *final(store), mirror@, *request, now, parse, r),
{
    if request.trigger != RunTrigger::Manual || request.request_id.as_str().unicode_len() == 0 {
        return Err(Failure::bad("invalid_request", "invalid manual request"));
    }
    let ghost before = *store;
    let outcome: Result<RunRecord, StoreError> = services::create_manual_run(
        store,
        mirror,
        request.request_id.as_str(),
        now,
        parse,
    );
    let ghost told = outcome;
    let r: Result<RunRecord, Failure> = answer(outcome);
    proof {
        let id = choose|id: RunId|
            manual::manual_outcome(
                before,
                *store,
                mirror@,
                request.request_id@,
                now,
                #[trigger] id.text(),
                |config: Seq<char>, outcome: Result<RunPolicySnapshot, StoreError>|
                    services::policy_read(parse, config, outcome),
                told,
            );
        assert(manual_answered(before, *store, mirror@, request.request_id@, now, id.text(), parse, told, r));
    }
    r
}

/// What validating a bundle is answered.
pub open spec fn validated(outcome: Result<CanonicalBundle, Vec<ConfigError>>, r: ValidationResponse) -> bool {
    match outcome {
        Ok(bundle) => r.valid && r.bundle_hash == Some(bundle.bundle_hash) && r.errors@.len() == 0,
        Err(errors) => !r.valid && r.bundle_hash is None && text::views(r.errors@) == views::error_messages(
            errors@,
        ),
    }
}

/// Says whether a configuration is valid.
pub fn validate(outcome: Result<CanonicalBundle, Vec<ConfigError>>) -> (r: ValidationResponse)
    ensures
        validated(outcome, r),
{
    match outcome {
        Ok(bundle) => ValidationResponse {
            valid: true,
            bundle_hash: Some(bundle.bundle_hash),
            errors: Vec::new(),
        },
        Err(errors) => ValidationResponse { valid: false, bundle_hash: None, errors: views::messages(&errors) },
    }
}

/// True when a bundle moves a mirror to another node.
pub open spec fn moves(s: Store, bundle: CanonicalBundle) -> bool {
    exists|name: Seq<char>|
        (#[trigger] planning::planned_change(s, bundle.mirrors@, name)) is Some && planning::planned_change(
            s,
            bundle.mirrors@,
            name,
        )->0.kind == ChangeKind::Move
}

fn plan_moves(changes: &Vec<planning::ConfigChange>) -> (r: bool)
    ensures
        r == (exists|i: int| 0 <= i < changes@.len() && (#[trigger] changes@[i]).kind == ChangeKind::Move),
{
    let mut i: usize = 0;
    while i < changes.len()
        invariant
            i <= changes.len(),
            forall|k: int| 0 <= k < i ==> (#[trigger] changes@[k]).kind != ChangeKind::Move,
        decreases changes.len() - i,
    {
        if changes[i].kind == ChangeKind::Move {
            return true;
        }
        i = i + 1;
    }
    false
}

/// What a configuration to put in force comes to.
pub open spec fn apply_answered(
    before: Store,
    after: Store,
    bundle: CanonicalBundle,
    base_revision: u64,
    now: i64,
    outcome: Result<ConfigPlan, StoreError>,
    r: Result<ConfigPlan, Failure>,
) -> bool {
    apply::apply_outcome(before, after, bundle, base_revision, "api"@, now, outcome) && failed_as(outcome, r)
}

/// What applying a bundle comes to.
pub open spec fn bundle_outcome(
    before: Store,
    after: Store,
    bundle: CanonicalBundle,
    base_revision: u64,
    acknowledge_moves: bool,
    now: i64,
    r: Result<ConfigPlan, Failure>,
) -> bool {
    &&& apply::names_valid(before) && moves(before, bundle) && !acknowledge_moves ==> {
        &&& after == before
        &&& r is Err
        &&& r->Err_0@ == failure(
            409,
            "move_acknowledgement_required"@,
            "node move requires acknowledgement"@,
        )
    }
    &&& !apply::names_valid(before) || !moves(before, bundle) || acknowledge_moves ==> exists|
        outcome: Result<ConfigPlan, StoreError>,
    | #[trigger]
        apply_answered(before, after, bundle, base_revision, now, outcome, r)
}

/// Puts a configuration in force. One that moves a mirror to another node takes an acknowledgement.
pub fn apply_bundle(
    store: &mut Store,
    bundle: &CanonicalBundle,
    base_revision: u64,
    acknowledge_moves: bool,
    now: i64,
) -> (r: Result<ConfigPlan, Failure>)
    requires
        old(store).wf(),
        in_order(bundle.mirrors@),
    ensures
        final(store).wf(),
        bundle_outcome(*old(store), *final(store), *bundle, base_revision, acknowledge_moves, now, r),
{
    let ghost before = *store;
    match store.plan(bundle) {
        Err(error) => {
            let ghost told = error;
            let r: Result<ConfigPlan, Failure> = Err(Failure::of_store(error));
            proof {
                let i = choose|i: int|
                    planning::first_bad_name(before.mirrors@, i) && told == StoreError::InvalidConfig(
                        told->InvalidConfig_0,
                    ) && told->InvalidConfig_0@ == "invalid "@ + "mirror name"@ + ": "@ + outside::debug_quoted(
                        (#[trigger] before.mirrors@[i]).name@,
                    );
                assert(planning::names_bad_mirror(before.mirrors@, told));
                assert(!ids::is_name(before.mirrors@[i].name@));
                assert(!apply::names_valid(before));
                assert(apply_answered(before, *store, *bundle, base_revision, now, Err(told), r));
            }
            return r;
        },
        Ok(plan) => {
            let moving: bool = plan_moves(&plan.changes);
            proof {
                if moving {
                    let i = choose|i: int|
                        0 <= i < plan.changes@.len() && (#[trigger] plan.changes@[i]).kind == ChangeKind::Move;
                    let name = plan.changes@[i].mirror@;
                    assert(planning::planned_change(before, bundle.mirrors@, name) is Some);
                } else if moves(before, *bundle) {
                    let name = choose|name: Seq<char>|
                        (#[trigger] planning::planned_change(before, bundle.mirrors@, name)) is Some
                            && planning::planned_change(before, bundle.mirrors@, name)->0.kind == ChangeKind::Move;
                    assert(planning::changes_mirror(plan.changes@, name));
                }
            }
            if moving && !acknowledge_moves {
                return Err(
                    Failure::conflict("move_acknowledgement_required", "node move requires acknowledgement"),
                );
            }
        },
    }
    let outcome: Result<ConfigPlan, StoreError> = store.apply(bundle, base_revision, "api", now);
    let ghost told = outcome;
    let r: Result<ConfigPlan, Failure> = answer(outcome);
    assert(apply_answered(before, *store, *bundle, base_revision, now, told, r));
    r
}

/// The token of a credential that is made of some secret bytes.
pub open spec fn token_of(secret: Seq<u8>) -> Seq<char> {
    "lmt_a_"@ + outside::hex_text(secret)
}

/// How many secret bytes a token is made of.
pub const SECRET_BYTES: usize = 32;

/// What giving a node a credential comes to when a generator gave some secret bytes or nothing: a bad
/// name is refused first, then a generator that gave nothing, then an identifier that is taken; else
/// the credential is added, with its node where that is not known yet.
pub open spec fn issued_as(
    before: Store,
    after: Store,
    name: Seq<char>,
    label: Option<Seq<char>>,
    secret: Option<Seq<u8>>,
    id: Seq<char>,
    now: i64,
    r: Result<(CredentialRecord, String), Failure>,
) -> bool {
    match r {
        Err(error) => after == before && if !ids::is_name(name) {
            error@ == failure(400, "invalid_node_name"@, services::name_fault("node name"@, name)->0)
        } else if secret is None {
            error@ == failure(500, "entropy_unavailable"@, "token generation failed"@)
        } else {
            tables::credential_index(before.credentials@, name, id) is Some && error@ == failure(
                500,
                "internal"@,
                "internal server error"@,
            )
        },
        Ok((record, token)) => {
            &&& ids::is_name(name)
            &&& secret is Some
            &&& tables::credential_index(before.credentials@, name, id) is None
            &&& token@ == token_of(secret->0)
            &&& record.id@ == id
            &&& credentials::only_access_changes(before, after)
            &&& credentials::node_present(before.nodes@, after.nodes@, name, now)
            &&& after.credentials@.len() == before.credentials@.len() + 1
            &&& after.credentials@.drop_last() == before.credentials@
            &&& after.credentials@.last().record == record
            &&& credentials::is_new_credential(after.credentials@.last(), name, id, label, token_of(secret->0), now)
        },
    }
}

/// The bytes that a generator gave, where it gave some.
pub open spec fn secret_view(secret: Option<&Vec<u8>>) -> Option<Seq<u8>> {
    match secret {
        Some(bytes) => Some(bytes@),
        None => None,
    }
}

/// Gives a node a credential whose token is made of the secret bytes that a generator gave, if it gave
/// some.
pub fn issue_credential_of(
    store: &mut Store,
    name: &str,
    label: Option<&str>,
    secret: Option<&Vec<u8>>,
    id: &str,
    now: i64,
) -> (r: Result<(CredentialRecord, String), Failure>)
    requires
        old(store).wf(),
    ensures
        final(store).wf(),
        issued_as(*old(store), *final(store), name@, borrowed_view(label), secret_view(secret), id@, now, r),
{
    let node: NodeName = match NodeName::new(name) {
        Ok(node) => node,
        Err(error) => {
            return Err(Failure::bad("invalid_node_name", error.message().as_str()));
        },
    };
    let token: String = match secret {
        Some(bytes) => text::join2("lmt_a_", outside::hex_encode(bytes.as_slice()).as_str()),
        None => {
            return Err(Failure::new(500, "entropy_unavailable", "token generation failed"));
        },
    };
    match store.issue_credential(node.as_str(), id, label, token.as_str(), now) {
        Ok(record) => Ok((record, token)),
        Err(error) => Err(Failure::of_store(error)),
    }
}

/// True of what giving a node a credential came to with what some generator and some fresh identifier
/// gave.
pub open spec fn issued_with(
    before: Store,
    after: Store,
    name: Seq<char>,
    label: Option<Seq<char>>,
    secret: Option<Seq<u8>>,
    id: RunId,
    now: i64,
    r: Result<(CredentialRecord, String), Failure>,
) -> bool {
    (secret is Some ==> secret->0.len() == SECRET_BYTES) && issued_as(
        before,
        after,
        name,
        label,
        secret,
        id.text(),
        now,
        r,
    )
}

/// Gives a node a fresh credential. Whether the generator gives secret bytes, and which, and which
/// identifier is fresh, rests on chance; what follows from them is fixed. A token is written in
/// seventy characters.
pub fn issue_credential(store: &mut Store, name: &str, label: Option<&str>, now: i64) -> (r: Result<
    (CredentialRecord, String),
    Failure,
>)
    requires
        old(store).wf(),
    ensures
        final(store).wf(),
        exists|secret: Option<Seq<u8>>, id: RunId| #[trigger]
            issued_with(*old(store), *final(store), name@, borrowed_view(label), secret, id, now, r),
        match r {
            Err(error) => *final(store) == *old(store) && if !ids::is_name(name@) {
                error@ == failure(400, "invalid_node_name"@, services::name_fault("node name"@, name@)->0)
            } else {
                error@ == failure(500, "entropy_unavailable"@, "token generation failed"@) || (error@ == failure(
                    500,
                    "internal"@,
                    "internal server error"@,
                ) && exists|id: RunId|
                    tables::credential_index(old(store).credentials@, name@, #[trigger] id.text()) is Some)
            },
            Ok((_, token)) => ids::is_name(name@) && token@.len() == 70 && text::begins_with(token@, "lmt_a_"@),
        },
{
    let ghost before = *store;
    if let Err(error) = NodeName::new(name) {
        let r: Result<(CredentialRecord, String), Failure> = Err(
            Failure::bad("invalid_node_name", error.message().as_str()),
        );
        proof {
            let id = RunId { value: 0 };
            assert(issued_with(before, *store, name@, borrowed_view(label), None, id, now, r));
        }
        return r;
    }
    let secret: Option<Vec<u8>> = outside::random_bytes(SECRET_BYTES);
    let given: Option<&Vec<u8>> = secret.as_ref();
    let fresh: RunId = RunId::new();
    let id: String = fresh.to_text();
    let r: Result<(CredentialRecord, String), Failure> = issue_credential_of(
        store,
        name,
        label,
        given,
        id.as_str(),
        now,
    );
    proof {
        let bytes = secret_view(given);
        assert(issued_with(before, *store, name@, borrowed_view(label), bytes, fresh, now, r));
        if bytes is Some {
            reveal_strlit("lmt_a_");
            assert(token_of(bytes->0).take(6) =~= "lmt_a_"@);
        }
    }
    r
}

/// Lists the credentials of a known node.
pub fn node_credentials(store: &Store, name: &str) -> (r: Result<Vec<CredentialRecord>, Failure>)
    ensures
        match tables::node_index(store.nodes@, name@) {
            None => r is Err && r->Err_0@ == failure(404, "node_not_found"@, "not found"@),
            Some(_) => r is Ok && in_rank(r->Ok_0@) && r->Ok_0@.to_multiset() == queries::credentials_of(
                store.credentials@,
                name@,
            ).to_multiset(),
        },
{
    if tables::find_node(&store.nodes, name).is_none() {
        return Err(Failure::not_found("node_not_found"));
    }
    Ok(store.list_credentials(name))
}

/// What is answered of a node.
pub open spec fn node_answer(store: Store, name: Seq<char>, r: Result<NodeRecord, Failure>) -> bool {
    match tables::node_index(store.nodes@, name) {
        None => r is Err && r->Err_0@ == failure(404, "node_not_found"@, "not found"@),
        Some(i) => r == Ok::<NodeRecord, Failure>(store.nodes@[i].record),
    }
}

/// The node of a name.
pub fn node(store: &Store, name: &str) -> (r: Result<NodeRecord, Failure>)
    ensures
        node_answer(*store, name@, r),
{
    match tables::find_node(&store.nodes, name) {
        None => Err(Failure::not_found("node_not_found")),
        Some(i) => Ok(store.nodes[i].record.clone()),
    }
}

/// What giving a node to another agent comes to.
pub open spec fn binding_replaced(
    before: Store,
    after: Store,
    name: Seq<char>,
    request: BindingReplaceRequest,
    r: Result<NodeRecord, Failure>,
) -> bool {
    match tables::node_index(before.nodes@, name) {
        None => after == before && r is Err && r->Err_0@ == failure(
            404,
            "node_not_found"@,
            "not found"@,
        ),
        Some(i) => if crate::store::nodes::node_may_execute(before, name)
            && !request.acknowledge_execution_risk {
            after == before && r is Err && r->Err_0@ == failure::store_failure(
                StoreError::BindingReplacementUnsafe,
            )
        } else {
            &&& r is Ok
            &&& r->Ok_0.bound_agent_id is Some
            &&& r->Ok_0.bound_agent_id->0@ == request.agent_id@
            &&& r->Ok_0 == (NodeRecord {
                bound_agent_id: r->Ok_0.bound_agent_id,
                agent_instance_id: None,
                agent_boot_id: None,
                ..before.nodes@[i].record
            })
            &&& credentials::only_access_changes(before, after)
            &&& after.credentials == before.credentials
            &&& after.nodes@ == before.nodes@.update(
                i,
                NodeRow { record: r->Ok_0, ..before.nodes@[i] },
            )
        },
    }
}

/// Binds another agent to a node.
pub fn replace_binding(store: &mut Store, name: &str, request: &BindingReplaceRequest) -> (r: Result<
    NodeRecord,
    Failure,
>)
    requires
        old(store).wf(),
    ensures
        final(store).wf(),
        binding_replaced(*old(store), *final(store), name@, *request, r),
{
    proof {
        tables::lemma_node_index(store.nodes@, name@);
    }
    let i: usize = match tables::find_node(&store.nodes, name) {
        None => {
            return Err(Failure::not_found("node_not_found"));
        },
        Some(i) => i,
    };
    match store.replace_agent_binding(name, request.agent_id.as_str(), request.acknowledge_execution_risk) {
        Err(error) => Err(Failure::of_store(error)),
        Ok(()) => Ok(store.nodes[i].record.clone()),
    }
}

/// A repeated report counts nothing but itself: neither the end of an attempt nor a retry is counted
/// twice.
pub proof fn law_repeated_events_count_once(metrics: AppMetrics, state: AttemptState, applied: AttemptEventApplyResult)
    requires
        !applied.newly_applied,
    ensures
        event_counted(metrics, state, applied) == (AppMetrics { events: metrics.events.wrapping_add(1), ..metrics }),
{
}

/// An event is taken as it was reported, its moments in thousandths of a second; one whose moments cannot
/// be read is refused.
pub proof fn law_events_are_taken_as_reported(request: EventRequest)
    ensures
        reported_event(request) is Ok <==> (request.accepted_at is None || outside::rfc3339_nanos(request.accepted_at->0@) is Some)
            && (request.started_at is None || outside::rfc3339_nanos(request.started_at->0@) is Some) && (
        request.finished_at is None || outside::rfc3339_nanos(request.finished_at->0@) is Some),
        reported_event(request) is Err ==> reported_event(request)->Err_0.status == 400,
        reported_event(request) is Ok ==> {
            let event = reported_event(request)->Ok_0;
            &&& event.event_sequence == request.event_sequence
            &&& event.state == request.state
            &&& event.agent_instance_id == request.agent_instance_id
            &&& event.exit_code == request.exit_code
            &&& event.failure_kind == request.failure_kind
            &&& event.failure_message == request.failure_message
            &&& event.accepted_at_ms is Some <==> request.accepted_at is Some
            &&& event.started_at_ms is Some <==> request.started_at is Some
            &&& event.finished_at_ms is Some <==> request.finished_at is Some
            &&& event.accepted_at_ms is Some ==> event.accepted_at_ms->0 == views::millis_of(
                outside::rfc3339_nanos(request.accepted_at->0@)->0 as int,
            ) as i64
            &&& event.started_at_ms is Some ==> event.started_at_ms->0 == views::millis_of(
                outside::rfc3339_nanos(request.started_at->0@)->0 as int,
            ) as i64
            &&& event.finished_at_ms is Some ==> event.finished_at_ms->0 == views::millis_of(
                outside::rfc3339_nanos(request.finished_at->0@)->0 as int,
            ) as i64
        },
{
}

/// Every event is counted; the end of an attempt is counted once, under how it ended, and a retry with it
/// where one comes of it.
pub proof fn law_ends_are_counted_by_kind(metrics: AppMetrics, state: AttemptState, applied: AttemptEventApplyResult)
    requires
        metrics.events < u64::MAX,
        metrics.attempts_succeeded < u64::MAX,
        metrics.attempts_failed < u64::MAX,
        metrics.attempts_timed_out < u64::MAX,
        metrics.attempts_cancelled < u64::MAX,
        metrics.attempts_rejected < u64::MAX,
        metrics.attempts_interrupted < u64::MAX,
        metrics.retries_scheduled < u64::MAX,
    ensures
        ({
            let after = event_counted(metrics, state, applied);
            let new = applied.newly_applied;
            let ended = new && state != AttemptState::Queued && state != AttemptState::Accepted && state
                != AttemptState::Running;
            &&& after.events == metrics.events + 1
            &&& after.attempts_succeeded - metrics.attempts_succeeded == (if new && state == AttemptState::Succeeded { 1int } else { 0 })
            &&& after.attempts_failed - metrics.attempts_failed == (if new && state == AttemptState::Failed { 1int } else { 0 })
            &&& after.attempts_timed_out - metrics.attempts_timed_out == (if new && state == AttemptState::TimedOut { 1int } else { 0 })
            &&& after.attempts_cancelled - metrics.attempts_cancelled == (if new && state == AttemptState::Cancelled { 1int } else { 0 })
            &&& after.attempts_rejected - metrics.attempts_rejected == (if new && state == AttemptState::Rejected { 1int } else { 0 })
            &&& after.attempts_interrupted - metrics.attempts_interrupted == (if new && state == AttemptState::Interrupted { 1int } else { 0 })
            &&& after.retries_scheduled - metrics.retries_scheduled == (if ended && applied.retry_scheduled { 1int } else { 0 })
            &&& after.polls == metrics.polls
            &&& after.auth_failures == metrics.auth_failures
            &&& after.cancellations_immediate == metrics.cancellations_immediate
            &&& after.cancellations_dispatched == metrics.cancellations_dispatched
        }),
{
}

/// A cancellation is counted when it is first asked for: as done where the run ended by it, else as
/// handed on to the agent.
pub proof fn law_cancellations_are_counted_once(metrics: AppMetrics, result: CancellationApplyResult)
    requires
        metrics.cancellations_immediate < u64::MAX,
        metrics.cancellations_dispatched < u64::MAX,
    ensures
        ({
            let after = cancellation_counted(metrics, result);
            &&& !result.newly_requested ==> after == metrics
            &&& after.cancellations_immediate - metrics.cancellations_immediate == (if result.newly_requested
                && result.run.state == RunState::Cancelled { 1int } else { 0 })
            &&& after.cancellations_dispatched - metrics.cancellations_dispatched == (if result.newly_requested
                && result.run.state != RunState::Cancelled { 1int } else { 0 })
            &&& after.events == metrics.events
            &&& after.polls == metrics.polls
        }),
{
}

/// An event is taken from the agent of the node that the run belongs to; of anybody else it is refused, and
/// nothing changes but, for a stranger, the count of refusals.
pub proof fn law_events_are_taken_from_the_owner<P: FnOnce(&str) -> Result<MirrorDocument, String>>(
    before: Store,
    after: Store,
    state_before: ServerState,
    state_after: ServerState,
    authorization: Option<Seq<char>>,
    run_id: Seq<char>,
    attempt_no: u32,
    request: EventRequest,
    now: i64,
    parse: P,
    r: Result<EventResponse, Failure>,
)
    requires
        before.wf(),
        event_taken(
            before,
            after,
            state_before,
            state_after,
            authorization,
            run_id,
            attempt_no,
            request,
            now,
            parse,
            r,
        ),
    ensures
        r is Ok ==> exists|i: int, j: int|
            #![trigger presents(before.credentials@, authorization, i), before.runs@[j]]
            presents(before.credentials@, authorization, i) && 0 <= j < before.runs@.len() && before.runs@[j].record.id@
                == run_id && before.runs@[j].record.owner_node@ == before.credentials@[i].record.node@,
        (forall|i: int| !#[trigger] presents(before.credentials@, authorization, i)) ==> r is Err && r->Err_0@.status == 401
            && after == before,
        r is Err ==> after == before,
        r is Err && r->Err_0@.status != 401 ==> state_after == state_before,
        state_after.operator_token == state_before.operator_token,
        state_after.observations == state_before.observations,
{
    tables::lemma_run_index(before.runs@, run_id);
    if r is Ok {
        let i = choose|i: int| #[trigger]
            presents(before.credentials@, authorization, i) && match event_fault(before, i, run_id, attempt_no, request) {
                Some(fault) => r is Err && r->Err_0@ == fault && after == before && state_after == state_before,
                None => exists|outcome: Result<AttemptEventApplyResult, StoreError>| #[trigger]
                    event_answered(
                        before,
                        after,
                        state_before,
                        state_after,
                        run_id,
                        attempt_no,
                        request,
                        now,
                        parse,
                        outcome,
                        r,
                    ),
            };
        let j = tables::run_index(before.runs@, run_id)->0;
        assert(presents(before.credentials@, authorization, i) && before.runs@[j].record.id@ == run_id);
    }
}

/// Asking to cancel a run that is not known is refused as not found and changes nothing.
pub proof fn law_unknown_runs_are_not_found<P: FnOnce(&str) -> Result<MirrorDocument, String>>(
    before: Store,
    after: Store,
    metrics_before: AppMetrics,
    metrics_after: AppMetrics,
    run_id: Seq<char>,
    now: i64,
    parse: P,
    r: Result<RunRecord, Failure>,
)
    requires
        before.wf(),
        cancel_outcome(before, after, metrics_before, metrics_after, run_id, now, parse, r),
    ensures
        (forall|j: int| 0 <= j < before.runs@.len() ==> (#[trigger] before.runs@[j]).record.id@ != run_id) ==> r is Err
            && r->Err_0@.status == 404 && after == before && metrics_after == metrics_before,
        r is Err ==> after == before && metrics_after == metrics_before,
        r is Ok ==> r->Ok_0.id@ == run_id,
{
    tables::lemma_run_index(before.runs@, run_id);
    if r is Ok {
        let outcome = choose|outcome: Result<CancellationApplyResult, StoreError>| #[trigger]
            cancellation_answered(before, after, metrics_before, metrics_after, run_id, now, parse, outcome, r);
        assert(outcome is Ok);
    }
}

/// A run is asked for by hand and under a name; anything else is the request's fault and changes nothing.
pub proof fn law_runs_are_asked_for_by_hand<P: FnOnce(&str) -> Result<MirrorDocument, String>>(
    before: Store,
    after: Store,
    mirror: Seq<char>,
    request: ManualRunRequest,
    now: i64,
    parse: P,
    r: Result<RunRecord, Failure>,
)
    requires
        before.wf(),
        manual_request(before, after, mirror, request, now, parse, r),
    ensures
        request.trigger != RunTrigger::Manual ==> r is Err && r->Err_0@.status == 400 && after == before,
        request.request_id@.len() == 0 ==> r is Err && r->Err_0@.status == 400 && after == before,
        r is Err ==> after == before,
        r is Ok ==> r->Ok_0.mirror_name@ == mirror,
{
    tables::lemma_mirror_index(before.mirrors@, mirror);
    manual::lemma_request_index(before.runs@, request.request_id@);
}

/// A bundle is valid with its fingerprint and without a complaint, or it is not, with every complaint.
pub proof fn law_validation_tells_every_fault(outcome: Result<CanonicalBundle, Vec<ConfigError>>, r: ValidationResponse)
    requires
        validated(outcome, r),
    ensures
        r.valid <==> outcome is Ok,
        r.bundle_hash is Some <==> outcome is Ok,
        outcome is Ok ==> r.bundle_hash->0 == outcome->Ok_0.bundle_hash && r.errors@.len() == 0,
        outcome is Err ==> r.errors@.len() == outcome->Err_0@.len(),
        outcome is Err ==> forall|i: int|
            0 <= i < r.errors@.len() ==> (#[trigger] r.errors@[i])@ == crate::domain::config::fault_message(outcome->Err_0@[i]@),
{
    if outcome is Err {
        let errors = outcome->Err_0;
        assert(text::views(r.errors@).len() == views::error_messages(errors@).len());
        assert forall|i: int| 0 <= i < r.errors@.len() implies (#[trigger] r.errors@[i])@
            == crate::domain::config::fault_message(errors@[i]@) by {
            assert(text::views(r.errors@)[i] == views::error_messages(errors@)[i]);
        }
    }
}

/// A mirror that is in force goes to another node only where that was acknowledged: else the bundle is
/// refused, and nothing changes. No acknowledgement is asked for where every mirror stays on its node.
pub proof fn law_moves_are_acknowledged(
    before: Store,
    after: Store,
    bundle: CanonicalBundle,
    base_revision: u64,
    acknowledged: bool,
    now: i64,
    r: Result<ConfigPlan, Failure>,
)
    requires
        before.wf(),
        in_order(bundle.mirrors@),
        apply::names_valid(before),
        bundle_outcome(before, after, bundle, base_revision, acknowledged, now, r),
    ensures
        ({
            let moved = exists|m: int, b: int|
                0 <= m < before.mirrors@.len() && 0 <= b < bundle.mirrors@.len() && (#[trigger] before.mirrors@[m]).managed
                    && (#[trigger] bundle.mirrors@[b]).name() == before.mirrors@[m].name@ && bundle.mirrors@[b].owner_node@
                    != before.mirrors@[m].owner_node@;
            &&& moved && !acknowledged ==> r is Err && r->Err_0@.status == 409 && after == before
            &&& !moved || acknowledged ==> exists|outcome: Result<ConfigPlan, StoreError>| #[trigger]
                apply_answered(before, after, bundle, base_revision, now, outcome, r)
        }),
        r is Err ==> after == before,
{
    if moves(before, bundle) {
        let name = choose|name: Seq<char>|
            (#[trigger] planning::planned_change(before, bundle.mirrors@, name)) is Some && planning::planned_change(
                before,
                bundle.mirrors@,
                name,
            )->0.kind == ChangeKind::Move;
        tables::lemma_mirror_index(before.mirrors@, name);
        planning::lemma_bundle_index(bundle.mirrors@, name);
        let m = tables::mirror_index(before.mirrors@, name)->0;
        let b = planning::bundle_index(bundle.mirrors@, name)->0;
        assert(before.mirrors@[m].managed && bundle.mirrors@[b].name() == before.mirrors@[m].name@);
    } else {
        assert forall|m: int, b: int|
            0 <= m < before.mirrors@.len() && 0 <= b < bundle.mirrors@.len() && (#[trigger] before.mirrors@[m]).managed && (
            #[trigger] bundle.mirrors@[b]).name() == before.mirrors@[m].name@ implies bundle.mirrors@[b].owner_node@
            == before.mirrors@[m].owner_node@ by {
            crate::store::lookup::lemma_own_mirror(before.mirrors@, m);
            planning::lemma_own_place(bundle.mirrors@, b);
            assert(planning::planned_change(before, bundle.mirrors@, before.mirrors@[m].name@) is None
                || planning::planned_change(before, bundle.mirrors@, before.mirrors@[m].name@)->0.kind != ChangeKind::Move);
        }
    }
}

/// A token that is issued is told once and opens for its node from then on, unless an older credential
/// that was not revoked has its fingerprint; it is a word that says whose it is, followed by the secret.
pub proof fn law_issued_tokens_open_for_their_node(
    before: Store,
    after: Store,
    name: Seq<char>,
    label: Option<Seq<char>>,
    secret: Option<Seq<u8>>,
    id: Seq<char>,
    now: i64,
    record: CredentialRecord,
    token: String,
    opened: Option<String>,
)
    requires
        issued_as(before, after, name, label, secret, id, now, Ok((record, token))),
        credentials::is_opened_for(after.credentials@, token@, opened),
    ensures
        record.node@ == name,
        record.id@ == id,
        text::opt_view(record.label) == label,
        record.created_at_ms == now,
        record.last_used_at_ms is None,
        record.revoked_at_ms is None,
        ids::is_name(name),
        token@ == "lmt_a_"@ + outside::hex_text(secret->0),
        opened is Some,
        (forall|o: int|
            0 <= o < before.credentials@.len() ==> (#[trigger] before.credentials@[o]).record.revoked_at_ms is Some
                || before.credentials@[o].token_hash@ != crate::domain::schedule::fingerprint(vstd::utf8::encode_utf8(token@)))
            ==> opened->0@ == name,
        forall|o: int|
            0 <= o < before.credentials@.len() ==> #[trigger] after.credentials@[o] == before.credentials@[o],
{
    let rows = after.credentials@;
    let last = before.credentials@.len() as int;
    assert forall|o: int| 0 <= o < before.credentials@.len() implies #[trigger] rows[o] == before.credentials@[o] by {
        assert(rows.drop_last()[o] == rows[o]);
    }
    let hash = credentials::token_digest(token@);
    assert(credentials::recognises(rows[last], hash));
    let first = credentials::lemma_first_match(rows, hash, last);
    assert(credentials::is_first_match(rows, hash, first));
}

/// A node is answered with what is known of it, and given to another agent as the store gives it.
pub proof fn law_nodes_are_answered_as_known(
    before: Store,
    after: Store,
    name: Seq<char>,
    request: BindingReplaceRequest,
    r: Result<NodeRecord, Failure>,
    answer: Result<NodeRecord, Failure>,
    i: int,
)
    requires
        before.wf(),
        binding_replaced(before, after, name, request, r),
        node_answer(before, name, answer),
        0 <= i < before.nodes@.len(),
        before.nodes@[i].record.name@ == name,
    ensures
        answer is Ok,
        answer->Ok_0 == before.nodes@[i].record,
        r is Ok ==> {
            &&& r->Ok_0 == after.nodes@[i].record
            &&& r->Ok_0.bound_agent_id is Some
            &&& r->Ok_0.bound_agent_id->0@ == request.agent_id@
            &&& r->Ok_0.agent_instance_id is None
            &&& r->Ok_0.agent_boot_id is None
            &&& r->Ok_0.name == before.nodes@[i].record.name
            &&& r->Ok_0.active_runs == before.nodes@[i].record.active_runs
            &&& r->Ok_0.max_concurrent_runs == before.nodes@[i].record.max_concurrent_runs
            &&& forall|o: int| 0 <= o < before.nodes@.len() && o != i ==> #[trigger] after.nodes@[o] == before.nodes@[o]
        },
        request.acknowledge_execution_risk ==> r is Ok,
        r is Ok <==> request.acknowledge_execution_risk || !crate::store::nodes::node_may_execute(before, name),
        r is Err ==> after == before && r->Err_0@.status == 409,
{
    crate::store::lookup::lemma_own_node(before.nodes@, i);
}

} // verus!
