//! What the server does for those who ask.
use super::access;
use super::access::presents;
use super::access::unauthorized;
use super::failure;
use super::failure::failure;
use super::failure::Failure;
use super::failure::FailureView;
use super::metrics::AppMetrics;
use super::observation;
use super::observation::PublicationObservation;
use super::services;
use super::services::borrowed_view;
use super::status;
use super::status::observed;
use super::views;
use crate::domain::config::MirrorDocument;
use crate::domain::ids::RunId;
use crate::domain::state::ProcessRunSpec;
use crate::protocol::AgentAction;
use crate::protocol::ExecutionIdentity;
use crate::protocol::PollRequest;
use crate::protocol::PollResponse;
use crate::protocol::PublicationHealth;
use crate::protocol::ATOMIC_EXCHANGE_V1;
use crate::protocol::EXECUTION_IDENTITY_V1;
use crate::protocol::PROTOCOL_VERSION;
use crate::store::credentials;
use crate::store::credentials::AuthenticatedCredential;
use crate::store::dispatch;
use crate::store::dispatch::CompiledAttempt;
use crate::store::dispatch::DispatchSource;
use crate::store::dispatch::PollAction;
use crate::store::dispatch::PollChoice;
use crate::store::nodes;
use crate::store::nodes::NodeObservation;
use crate::store::poll;
use crate::store::tables;
use crate::store::tables::CredentialRecord;
use crate::store::tables::CredentialRow;
use crate::store::tables::Store;
use crate::store::tables::StoreError;
use crate::text;
use vstd::prelude::*;

verus! {

/// What the server holds besides the tables.
#[derive(Debug, PartialEq, Eq)]
pub struct ServerState {
    pub operator_token: String,
    pub metrics: AppMetrics,
    pub observations: Vec<(String, PublicationObservation)>,
}

/// No node stands twice among what was seen of publication.
pub open spec fn unique_nodes(observations: Seq<(String, PublicationObservation)>) -> bool {
    forall|i: int, j: int|
        0 <= i < j < observations.len() ==> (#[trigger] observations[i]).0@ != (#[trigger] observations[j]).0@
}

/// The state with one more refused token counted.
pub open spec fn refusal_counted(before: ServerState, after: ServerState) -> bool {
    after == (ServerState {
        metrics: AppMetrics {
            auth_failures: before.metrics.auth_failures.wrapping_add(1),
            ..before.metrics
        },
        ..before
    })
}

/// What asking for the operator comes to.
pub open spec fn operator_required(
    before: ServerState,
    after: ServerState,
    authorization: Option<Seq<char>>,
    r: Result<(), Failure>,
) -> bool {
    &&& r is Ok <==> access::bearer_token(authorization) == Some(before.operator_token@)
    &&& r is Ok ==> after == before
    &&& r is Err ==> r->Err_0@ == unauthorized() && refusal_counted(before, after)
}

/// Lets the operator in, and counts those who are turned away.
pub fn require_operator(state: &mut ServerState, authorization: Option<&str>) -> (r: Result<(), Failure>)
    ensures
        operator_required(*old(state), *final(state), borrowed_view(authorization), r),
{
    let outcome: Result<(), Failure> = access::operator(authorization, state.operator_token.as_str());
    if outcome.is_err() {
        state.metrics.auth_failures = state.metrics.auth_failures.wrapping_add(1);
    }
    outcome
}

/// True when an agent declares a capability.
pub open spec fn declares(request: PollRequest, capability: Seq<char>) -> bool {
    text::views(request.capabilities@).contains(capability)
}

/// True when a report of publication was taken: as a first one, or added to what was seen before.
pub open spec fn report_taken(
    before: Option<PublicationObservation>,
    after: PublicationObservation,
    request: PollRequest,
    health: PublicationHealth,
) -> bool {
    &&& after.agent_instance_id@ == request.agent_instance_id@
    &&& after.agent_boot_id@ == request.agent_boot_id@
    &&& after.atomic_capable == declares(request, ATOMIC_EXCHANGE_V1@)
    &&& after.last == health
    &&& after.cumulative == (match before {
        None => health,
        Some(seen) => observation::accumulated(
            seen.cumulative,
            seen.last,
            health,
            observation::restarted(seen, request.agent_instance_id@, request.agent_boot_id@),
        ),
    })
}

/// What is seen of publication after a report: the report of this node, or nothing where it makes
/// none; all other nodes as before.
pub open spec fn publication_noted(
    before: Seq<(String, PublicationObservation)>,
    after: Seq<(String, PublicationObservation)>,
    node: Seq<char>,
    request: PollRequest,
) -> bool {
    &&& unique_nodes(after)
    &&& forall|other: Seq<char>| other != node ==> #[trigger] observed(after, other) == observed(before, other)
    &&& match request.publication_health {
        None => observed(after, node) is None,
        Some(health) => observed(after, node) is Some && report_taken(
            observed(before, node),
            observed(after, node)->0,
            request,
            health,
        ),
    }
}

/// What was seen under a name is found by its place, wherever that is.
proof fn lemma_observed_at(observations: Seq<(String, PublicationObservation)>, i: int)
    requires
        unique_nodes(observations),
        0 <= i < observations.len(),
    ensures
        observed(observations, observations[i].0@) == Some(observations[i].1),
    decreases observations.len(),
{
    if i > 0 {
        assert(observations[0].0@ != observations[i].0@);
        let rest = observations.drop_first();
        assert(rest[i - 1] == observations[i]);
        assert forall|x: int, y: int| 0 <= x < y < rest.len() implies (#[trigger] rest[x]).0@ != (#[trigger] rest[y]).0@ by {
            assert(observations[x + 1].0@ != observations[y + 1].0@);
        }
        lemma_observed_at(rest, i - 1);
    }
}

/// Under a name that does not stand there, nothing was seen.
proof fn lemma_unobserved(observations: Seq<(String, PublicationObservation)>, node: Seq<char>)
    requires
        forall|i: int| 0 <= i < observations.len() ==> (#[trigger] observations[i]).0@ != node,
    ensures
        observed(observations, node) is None,
    decreases observations.len(),
{
    if observations.len() > 0 {
        assert(observations[0].0@ != node);
        let rest = observations.drop_first();
        assert forall|i: int| 0 <= i < rest.len() implies (#[trigger] rest[i]).0@ != node by {
            assert(observations[i + 1].0@ != node);
        }
        lemma_unobserved(rest, node);
    }
}

/// Two lists that hold the same entry for a name, or none, show the same for it.
proof fn lemma_observed_same(
    before: Seq<(String, PublicationObservation)>,
    after: Seq<(String, PublicationObservation)>,
    node: Seq<char>,
)
    requires
        unique_nodes(before),
        unique_nodes(after),
        forall|i: int|
            0 <= i < before.len() && (#[trigger] before[i]).0@ == node ==> exists|j: int|
                0 <= j < after.len() && (#[trigger] after[j]) == before[i],
        forall|j: int|
            0 <= j < after.len() && (#[trigger] after[j]).0@ == node ==> exists|i: int|
                0 <= i < before.len() && (#[trigger] before[i]) == after[j],
    ensures
        observed(after, node) == observed(before, node),
{
    if exists|i: int| 0 <= i < before.len() && (#[trigger] before[i]).0@ == node {
        let i = choose|i: int| 0 <= i < before.len() && (#[trigger] before[i]).0@ == node;
        let j = choose|j: int| 0 <= j < after.len() && (#[trigger] after[j]) == before[i];
        lemma_observed_at(before, i);
        lemma_observed_at(after, j);
    } else {
        lemma_unobserved(before, node);
        assert forall|j: int| 0 <= j < after.len() implies (#[trigger] after[j]).0@ != node by {
            if after[j].0@ == node {
                let i = choose|i: int| 0 <= i < before.len() && (#[trigger] before[i]) == after[j];
                assert(before[i].0@ == node);
            }
        }
        lemma_unobserved(after, node);
    }
}

/// Notes what an agent reports of publication.
pub fn note_publication(observations: &mut Vec<(String, PublicationObservation)>, node: &str, request: &PollRequest)
    requires
        unique_nodes(old(observations)@),
    ensures
        publication_noted(old(observations)@, final(observations)@, node@, *request),
{
    let ghost before = observations@;
    let place: Option<usize> = status::find_observation(observations, node);
    match request.publication_health {
        Some(health) => {
            let capable: bool = text::list_contains(&request.capabilities, ATOMIC_EXCHANGE_V1);
            match place {
                Some(i) => {
                    let entry: &mut (String, PublicationObservation) = &mut observations[i];
                    entry.1.update(
                        request.agent_instance_id.as_str(),
                        request.agent_boot_id.as_str(),
                        capable,
                        health,
                    );
                    proof {
                        let after = observations@;
                        assert(unique_nodes(after));
                        lemma_observed_at(after, i as int);
                        assert forall|other: Seq<char>| other != node@ implies #[trigger] observed(after, other)
                            == observed(before, other) by {
                            assert forall|x: int| 0 <= x < before.len() && (#[trigger] before[x]).0@
                                == other implies exists|j: int|
                                0 <= j < after.len() && (#[trigger] after[j]) == before[x] by {
                                assert(after[x] == before[x]);
                            }
                            assert forall|y: int| 0 <= y < after.len() && (#[trigger] after[y]).0@
                                == other implies exists|x: int|
                                0 <= x < before.len() && (#[trigger] before[x]) == after[y] by {
                                assert(before[y] == after[y]);
                            }
                            lemma_observed_same(before, after, other);
                        }
                    }
                },
                None => {
                    observations.push(
                        (
                            node.to_owned(),
                            PublicationObservation::new(
                                request.agent_instance_id.clone(),
                                request.agent_boot_id.clone(),
                                capable,
                                health,
                            ),
                        ),
                    );
                    proof {
                        let after = observations@;
                        assert(unique_nodes(after));
                        lemma_observed_at(after, after.len() - 1);
                        assert forall|other: Seq<char>| other != node@ implies #[trigger] observed(after, other)
                            == observed(before, other) by {
                            assert forall|x: int| 0 <= x < before.len() && (#[trigger] before[x]).0@
                                == other implies exists|j: int|
                                0 <= j < after.len() && (#[trigger] after[j]) == before[x] by {
                                assert(after[x] == before[x]);
                            }
                            assert forall|y: int| 0 <= y < after.len() && (#[trigger] after[y]).0@
                                == other implies exists|x: int|
                                0 <= x < before.len() && (#[trigger] before[x]) == after[y] by {
                                assert(before[y] == after[y]);
                            }
                            lemma_observed_same(before, after, other);
                        }
                    }
                },
            }
        },
        None => {
            if let Some(i) = place {
                let _ = observations.remove(i);
                proof {
                    let after = observations@;
                    assert forall|x: int, y: int| 0 <= x < y < after.len() implies (#[trigger] after[x]).0@ != (
                    #[trigger] after[y]).0@ by {
                        let bx = if x < i { x } else { x + 1 };
                        let by = if y < i { y } else { y + 1 };
                        assert(after[x] == before[bx] && after[y] == before[by]);
                    }
                    assert forall|x: int| 0 <= x < after.len() implies (#[trigger] after[x]).0@ != node@ by {
                        let bx = if x < i { x } else { x + 1 };
                        assert(after[x] == before[bx]);
                        assert(before[i as int].0@ != before[bx].0@);
                    }
                    lemma_unobserved(after, node@);
                    assert forall|other: Seq<char>| other != node@ implies #[trigger] observed(after, other)
                        == observed(before, other) by {
                        assert forall|x: int| 0 <= x < before.len() && (#[trigger] before[x]).0@
                            == other implies exists|j: int|
                            0 <= j < after.len() && (#[trigger] after[j]) == before[x] by {
                            let j = if x < i { x } else { x - 1 };
                            assert(after[j] == before[x]);
                        }
                        assert forall|y: int| 0 <= y < after.len() && (#[trigger] after[y]).0@
                            == other implies exists|x: int|
                            0 <= x < before.len() && (#[trigger] before[x]) == after[y] by {
                            let x = if y < i { y } else { y + 1 };
                            assert(before[x] == after[y]);
                        }
                        lemma_observed_same(before, after, other);
                    }
                }
            }
        },
    }
}

/// What an agent's poll reports of its node.
pub open spec fn observation_of(request: PollRequest, node: String, now: i64) -> NodeObservation {
    NodeObservation {
        node,
        agent_version: request.agent_version,
        agent_instance_id: request.agent_instance_id,
        agent_boot_id: request.agent_boot_id,
        active_runs: request.capacity.active_runs,
        max_concurrent_runs: request.capacity.max_concurrent_runs,
        mirror_root_free_bytes: request.capacity.mirror_root_free_bytes,
        mirror_root: request.mirror_root,
        observed_at_ms: now,
    }
}

/// How a poll with credential `i` is refused before anything is noted.
pub open spec fn poll_fault(store: Store, i: int, request: PollRequest, now: i64) -> Option<FailureView> {
    let node = store.credentials@[i].record.node;
    if request.protocol_version@ != PROTOCOL_VERSION@ {
        Some(failure(400, "unsupported_protocol_version"@, "only v1alpha1 is supported"@))
    } else {
        match tables::node_index(store.nodes@, node@) {
            None => Some(failure(500, "internal"@, "internal server error"@)),
            Some(n) => if nodes::bound_elsewhere(store.nodes@[n], observation_of(request, node, now)) {
                Some(
                    failure::store_failure(
                        StoreError::AgentBindingConflict {
                            bound_agent_id: store.nodes@[n].record.bound_agent_id->0,
                            presented_agent_id: request.agent_instance_id,
                        },
                    ),
                )
            } else {
                None
            },
        }
    }
}

/// The credentials after credential `i` was used.
pub open spec fn use_noted(before: Seq<CredentialRow>, i: int, now: i64) -> Seq<CredentialRow> {
    if credentials::use_is_noted(before[i].record, now) {
        before.update(
            i,
            CredentialRow {
                record: CredentialRecord { last_used_at_ms: Some(now), ..before[i].record },
                ..before[i]
            },
        )
    } else {
        before
    }
}

/// What a poll that is let in leaves behind: the node as reported, the use of the credential, what is
/// seen of publication, and one more poll counted.
pub open spec fn poll_noted(
    before: Store,
    after: Store,
    state_before: ServerState,
    state_after: ServerState,
    i: int,
    request: PollRequest,
    now: i64,
) -> bool {
    let node = before.credentials@[i].record.node;
    let n = tables::node_index(before.nodes@, node@)->0;
    &&& credentials::only_access_changes(before, after)
    &&& after.nodes@ == before.nodes@.update(
        n,
        nodes::observed(before.nodes@[n], observation_of(request, node, now)),
    )
    &&& after.credentials@ == use_noted(before.credentials@, i, now)
    &&& publication_noted(state_before.observations@, state_after.observations@, node@, request)
    &&& state_after == (ServerState {
        observations: state_after.observations,
        metrics: AppMetrics { polls: state_before.metrics.polls.wrapping_add(1), ..state_before.metrics },
        ..state_before
    })
}

/// What the report of an agent comes to.
pub open spec fn poll_outcome(
    before: Store,
    after: Store,
    state_before: ServerState,
    state_after: ServerState,
    authorization: Option<Seq<char>>,
    request: PollRequest,
    now: i64,
    r: Result<String, Failure>,
) -> bool {
    match r {
        Ok(node) => exists|i: int| #[trigger]
            presents(before.credentials@, authorization, i) && poll_fault(
                before,
                i,
                request,
                now,
            ) is None && node == before.credentials@[i].record.node && poll_noted(
                before,
                after,
                state_before,
                state_after,
                i,
                request,
                now,
            ),
        Err(error) => {
            &&& after == before
            &&& {
                ||| error@ == unauthorized() && refusal_counted(state_before, state_after) && forall|i: int|
                    !#[trigger] presents(before.credentials@, authorization, i)
                ||| state_after == state_before && exists|i: int| #[trigger]
                    presents(before.credentials@, authorization, i) && poll_fault(
                        before,
                        i,
                        request,
                        now,
                    ) == Some(error@)
            }
        },
    }
}

/// Lets an agent in that asks for work, and notes what it reports. The node it speaks for is that of
/// its credential, whatever it says.
pub fn admit_poll(
    store: &mut Store,
    state: &mut ServerState,
    authorization: Option<&str>,
    request: &PollRequest,
    now: i64,
) -> (r: Result<String, Failure>)
    requires
        old(store).wf(),
        unique_nodes(old(state).observations@),
    ensures
        final(store).wf(),
        unique_nodes(final(state).observations@),
        poll_outcome(
            *old(store),
            *final(store),
            *old(state),
            *final(state),
            borrowed_view(authorization),
            *request,
            now,
            r,
        ),
{
    let ghost before = *store;
    let credential: AuthenticatedCredential = match access::agent(store, authorization) {
        Ok(credential) => credential,
        Err(error) => {
            state.metrics.auth_failures = state.metrics.auth_failures.wrapping_add(1);
            return Err(error);
        },
    };
    let ghost i = choose|i: int|
        #[trigger] presents(before.credentials@, borrowed_view(authorization), i) && credential.node
            == before.credentials@[i].record.node && credential.credential_id == before.credentials@[i].record.id;
    let node: String = credential.node;
    if !text::same(request.protocol_version.as_str(), PROTOCOL_VERSION) {
        let fault: Failure = Failure::bad("unsupported_protocol_version", "only v1alpha1 is supported");
        assert(poll_fault(before, i, *request, now) == Some(fault@));
        return Err(fault);
    }
    let report: NodeObservation = NodeObservation {
        node: node.clone(),
        agent_version: request.agent_version.clone(),
        agent_instance_id: request.agent_instance_id.clone(),
        agent_boot_id: request.agent_boot_id.clone(),
        active_runs: request.capacity.active_runs,
        max_concurrent_runs: request.capacity.max_concurrent_runs,
        mirror_root_free_bytes: request.capacity.mirror_root_free_bytes,
        mirror_root: request.mirror_root.clone(),
        observed_at_ms: now,
    };
    assert(report == observation_of(*request, node, now));
    if let Err(error) = store.observe_node(report) {
        let fault: Failure = Failure::of_store(error);
        assert(poll_fault(before, i, *request, now) == Some(fault@));
        return Err(fault);
    }
    note_publication(&mut state.observations, node.as_str(), request);
    proof {
        tables::lemma_credential_index(before.credentials@, node@, credential.credential_id@);
        let k = tables::credential_index(before.credentials@, node@, credential.credential_id@)->0;
        assert(before.credentials@[i].record.node@ == node@);
        if k < i {
            assert(before.credentials@[k].record.node@ != before.credentials@[i].record.node@
                || before.credentials@[k].record.id@ != before.credentials@[i].record.id@);
        } else if i < k {
            assert(before.credentials@[i].record.node@ != before.credentials@[k].record.node@
                || before.credentials@[i].record.id@ != before.credentials@[k].record.id@);
        }
        assert(k == i);
    }
    let _ = store.mark_credential_used(node.as_str(), credential.credential_id.as_str(), now);
    state.metrics.polls = state.metrics.polls.wrapping_add(1);
    let r: Result<String, Failure> = Ok(node);
    assert(poll_noted(before, *store, *old(state), *state, i, *request, now));
    r
}

/// The publication root that work is compiled for: that of an agent which can exchange a directory at
/// once.
pub open spec fn offered_root(request: PollRequest) -> Option<Seq<char>> {
    if declares(request, ATOMIC_EXCHANGE_V1@) {
        text::opt_view(request.publication_root)
    } else {
        None
    }
}

/// Tells an agent what to do next.
pub fn next_action_for_agent<
    P: FnOnce(&str) -> Result<MirrorDocument, String>,
    W: FnOnce(&ProcessRunSpec) -> Result<String, String>,
>(store: &mut Store, node: &str, request: &PollRequest, now: i64, parse: P, write: W) -> (r: Result<
    Option<PollAction>,
    Failure,
>)
    requires
        old(store).wf(),
        forall|config: &str| #[trigger] call_requires(parse, (config,)),
        forall|spec: &ProcessRunSpec| #[trigger] call_requires(write, (spec,)),
    ensures
        final(store).wf(),
        exists|choice: PollChoice, id: RunId, outcome: Result<Option<PollAction>, StoreError>|
            #![trigger dispatch::is_next(*old(store), node@, now, choice), id.text(), failed_as(outcome, r)]
            dispatch::is_next(*old(store), node@, now, choice) && poll::polled(
                *old(store),
                *final(store),
                choice,
                id.text(),
                now,
                |source: DispatchSource, outcome: Result<CompiledAttempt, StoreError>|
                    services::attempt_outcome(
                        source,
                        node@,
                        request.mirror_root@,
                        offered_root(*request),
                        parse,
                        write,
                        outcome,
                    ),
                outcome,
            ) && failed_as(outcome, r),
{
    let able: bool = text::list_contains(&request.capabilities, ATOMIC_EXCHANGE_V1);
    let root: Option<&str> = if able {
        match &request.publication_root {
            Some(value) => Some(value.as_str()),
            None => None,
        }
    } else {
        None
    };
    assert(borrowed_view(root) == offered_root(*request));
    let ghost before = *store;
    let outcome: Result<Option<PollAction>, StoreError> = services::next_action(
        store,
        node,
        request.mirror_root.as_str(),
        root,
        now,
        parse,
        write,
    );
    let ghost told = outcome;
    let r: Result<Option<PollAction>, Failure> = match outcome {
        Ok(action) => Ok(action),
        Err(error) => Err(Failure::of_store(error)),
    };
    assert(failed_as(told, r));
    r
}

/// True when a request answers as an operation on the tables came out.
pub open spec fn failed_as<T>(outcome: Result<T, StoreError>, r: Result<T, Failure>) -> bool {
    match outcome {
        Ok(value) => r == Ok::<T, Failure>(value),
        Err(error) => r is Err && r->Err_0@ == failure::store_failure(error),
    }
}

/// Answers as an operation on the tables came out.
pub fn answer<T>(outcome: Result<T, StoreError>) -> (r: Result<T, Failure>)
    ensures
        failed_as(outcome, r),
{
    match outcome {
        Ok(value) => Ok(value),
        Err(error) => Err(Failure::of_store(error)),
    }
}

/// What an agent is answered.
pub open spec fn action_outcome<S: FnOnce(&str) -> Result<ProcessRunSpec, String>>(
    chosen: PollAction,
    supports_execution_identity: bool,
    read: S,
    r: Result<PollResponse, Failure>,
) -> bool {
    match chosen {
        PollAction::CancelAttempt { run_id, attempt_no, spec_hash } => r is Ok && r->Ok_0.actions@ == seq![
            AgentAction::CancelAttempt { run_id, attempt: attempt_no, spec_hash },
        ],
        PollAction::StartAttempt { run_id, attempt_no, mirror_name, spec_hash, spec_json } =>
            exists|parsed: Result<ProcessRunSpec, String>|
            #[trigger] crate::store::asked::reads_as(read, spec_json@, parsed) && match parsed {
                Err(_) => r is Err && r->Err_0@ == failure(500, "internal"@, "internal server error"@),
                Ok(spec) => r is Ok && r->Ok_0.actions@ == seq![
                    AgentAction::StartAttempt {
                        run_id,
                        attempt: attempt_no,
                        spec_hash,
                        execution_identity: if supports_execution_identity {
                            Some(ExecutionIdentity { mirror: mirror_name })
                        } else {
                            None
                        },
                        spec,
                    },
                ],
            },
    }
}

/// Writes an action as an agent reads it; `read` reads the stored specification. An agent that does
/// not know of identities gets none.
pub fn action<S: FnOnce(&str) -> Result<ProcessRunSpec, String>>(
    chosen: PollAction,
    supports_execution_identity: bool,
    read: S,
) -> (r: Result<PollResponse, Failure>)
    requires
        forall|json: &str| #[trigger] call_requires(read, (json,)),
    ensures
        action_outcome(chosen, supports_execution_identity, read, r),
{
    match chosen {
        PollAction::CancelAttempt { run_id, attempt_no, spec_hash } => {
            let actions: Vec<AgentAction> = vec![
                AgentAction::CancelAttempt { run_id, attempt: attempt_no, spec_hash },
            ];
            assert(actions@ =~= seq![actions@[0]]);
            Ok(PollResponse { actions })
        },
        PollAction::StartAttempt { run_id, attempt_no, mirror_name, spec_hash, spec_json } => {
            let json: &str = spec_json.as_str();
            let parsed: Result<ProcessRunSpec, String> = read(json);
            proof {
                assert(call_ensures(read, (json,), parsed));
                assert(crate::store::asked::reads_as(read, spec_json@, parsed));
            }
            match parsed {
                Err(_) => Err(Failure::new(500, "internal", "internal server error")),
                Ok(spec) => {
                    let execution_identity: Option<ExecutionIdentity> = if supports_execution_identity {
                        Some(ExecutionIdentity { mirror: mirror_name })
                    } else {
                        None
                    };
                    let actions: Vec<AgentAction> = vec![
                        AgentAction::StartAttempt {
                            run_id,
                            attempt: attempt_no,
                            spec_hash,
                            execution_identity,
                            spec,
                        },
                    ];
                    assert(actions@ =~= seq![actions@[0]]);
                    Ok(PollResponse { actions })
                },
            }
        },
    }
}

/// True when an agent can read the identity of what it executes.
pub fn supports_execution_identity(request: &PollRequest) -> (r: bool)
    ensures
        r == declares(*request, EXECUTION_IDENTITY_V1@),
{
    text::list_contains(&request.capabilities, EXECUTION_IDENTITY_V1)
}

/// Whoever bears the operator's token is let in and nothing changes; anybody else is refused, and that is
/// counted.
pub proof fn law_refused_operators_are_counted(
    before: ServerState,
    after: ServerState,
    authorization: Option<Seq<char>>,
    r: Result<(), Failure>,
)
    requires
        operator_required(before, after, authorization, r),
    ensures
        r is Ok <==> authorization == Some("Bearer "@ + before.operator_token@),
        r is Ok ==> after == before,
        r is Err ==> r->Err_0@.status == 401,
        r is Err && before.metrics.auth_failures < u64::MAX ==> after.metrics.auth_failures == before.metrics.auth_failures + 1,
        after.operator_token == before.operator_token,
        after.observations == before.observations,
        after.metrics.polls == before.metrics.polls,
{
    let scheme = "Bearer "@;
    let token = before.operator_token@;
    assert((scheme + token).take(scheme.len() as int) =~= scheme);
    assert((scheme + token).skip(scheme.len() as int) =~= token);
    if authorization is Some && access::bearer_token(authorization) == Some(token) {
        assert(authorization->0 =~= scheme + token);
    }
}

/// A report is taken from an agent that bears a credential of a node that is known and not bound to another
/// agent, in the version that is spoken here; the node is then as reported, and the report is counted.
pub proof fn law_reports_are_taken_from_the_bound_agent(
    before: Store,
    after: Store,
    state_before: ServerState,
    state_after: ServerState,
    authorization: Option<Seq<char>>,
    request: PollRequest,
    now: i64,
    r: Result<String, Failure>,
    i: int,
    n: int,
)
    requires
        before.wf(),
        poll_outcome(before, after, state_before, state_after, authorization, request, now, r),
        presents(before.credentials@, authorization, i),
        0 <= n < before.nodes@.len(),
        before.nodes@[n].record.name@ == before.credentials@[i].record.node@,
    ensures
        r is Ok <==> request.protocol_version@ == PROTOCOL_VERSION@ && (before.nodes@[n].record.bound_agent_id is None
            || before.nodes@[n].record.bound_agent_id->0@ == request.agent_instance_id@),
        r is Err ==> after == before && state_after == state_before,
        request.protocol_version@ != PROTOCOL_VERSION@ ==> r is Err && r->Err_0@.status == 400,
        request.protocol_version@ == PROTOCOL_VERSION@ && r is Err ==> r->Err_0@.status == 409,
        r is Ok ==> {
            let row = after.nodes@[n];
            &&& r->Ok_0 == before.credentials@[i].record.node
            &&& row.record.agent_instance_id is Some
            &&& row.record.agent_instance_id->0@ == request.agent_instance_id@
            &&& row.record.bound_agent_id is Some
            &&& row.record.bound_agent_id->0@ == request.agent_instance_id@
            &&& row.record.agent_boot_id is Some
            &&& row.record.agent_boot_id->0@ == request.agent_boot_id@
            &&& row.record.agent_version is Some
            &&& row.record.agent_version->0@ == request.agent_version@
            &&& row.record.active_runs == request.capacity.active_runs
            &&& row.record.max_concurrent_runs == request.capacity.max_concurrent_runs
            &&& row.record.mirror_root_free_bytes == request.capacity.mirror_root_free_bytes
            &&& row.record.last_seen_at_ms == Some(now)
            &&& row.mirror_root is Some
            &&& row.mirror_root->0@ == request.mirror_root@
            &&& row.record.name == before.nodes@[n].record.name
            &&& forall|o: int| 0 <= o < before.nodes@.len() && o != n ==> #[trigger] after.nodes@[o] == before.nodes@[o]
            &&& state_before.metrics.polls < u64::MAX ==> state_after.metrics.polls == state_before.metrics.polls + 1
            &&& state_after.metrics.auth_failures == state_before.metrics.auth_failures
            &&& state_after.operator_token == state_before.operator_token
            &&& after.runs == before.runs
            &&& after.attempts == before.attempts
            &&& after.schedules == before.schedules
            &&& after.credentials@.len() == before.credentials@.len()
            &&& after.credentials@[i].record.last_used_at_ms == (if before.credentials@[i].record.last_used_at_ms is None || now
                - before.credentials@[i].record.last_used_at_ms->0 >= 60_000 {
                Some(now)
            } else {
                before.credentials@[i].record.last_used_at_ms
            })
        },
{
    crate::store::lookup::lemma_own_node(before.nodes@, n);
    assert forall|k: int| #[trigger] presents(before.credentials@, authorization, k) implies k == i by {
        let hash = credentials::token_digest(access::bearer_token(authorization)->0);
        if k < i {
            assert(!credentials::recognises(before.credentials@[k], hash));
        } else if i < k {
            assert(!credentials::recognises(before.credentials@[i], hash));
        }
    }
}

/// Who bears no credential is refused, which is counted and changes nothing else.
pub proof fn law_strangers_report_nothing(
    before: Store,
    after: Store,
    state_before: ServerState,
    state_after: ServerState,
    authorization: Option<Seq<char>>,
    request: PollRequest,
    now: i64,
    r: Result<String, Failure>,
)
    requires
        poll_outcome(before, after, state_before, state_after, authorization, request, now, r),
        forall|i: int| !#[trigger] presents(before.credentials@, authorization, i),
    ensures
        r is Err,
        r->Err_0@.status == 401,
        after == before,
        state_before.metrics.auth_failures < u64::MAX ==> state_after.metrics.auth_failures
            == state_before.metrics.auth_failures + 1,
        state_after.metrics.polls == state_before.metrics.polls,
        state_after.observations == state_before.observations,
{
}

/// A place to publish from is offered by an agent that can exchange directories at once, and by no other.
pub proof fn law_only_capable_agents_offer_a_place(request: PollRequest)
    ensures
        offered_root(request) is Some <==> request.publication_root is Some && exists|i: int|
            0 <= i < request.capabilities@.len() && (#[trigger] request.capabilities@[i])@ == ATOMIC_EXCHANGE_V1@,
        offered_root(request) is Some ==> offered_root(request)->0 == request.publication_root->0@,
{
    let words = text::views(request.capabilities@);
    if words.contains(ATOMIC_EXCHANGE_V1@) {
        let i = choose|i: int| 0 <= i < words.len() && words[i] == ATOMIC_EXCHANGE_V1@;
        assert(request.capabilities@[i]@ == ATOMIC_EXCHANGE_V1@);
    }
    assert forall|i: int| 0 <= i < request.capabilities@.len() && (#[trigger] request.capabilities@[i])@
        == ATOMIC_EXCHANGE_V1@ implies words.contains(ATOMIC_EXCHANGE_V1@) by {
        assert(words[i] == ATOMIC_EXCHANGE_V1@);
    }
}

/// An agent is told of one thing at a time, under the run, the number and the fingerprint it was chosen
/// with; whose mirror it is is told to those who understand it.
pub proof fn law_agents_are_told_what_was_chosen<S: FnOnce(&str) -> Result<ProcessRunSpec, String>>(
    chosen: PollAction,
    supports_identity: bool,
    read: S,
    r: Result<PollResponse, Failure>,
)
    requires
        action_outcome(chosen, supports_identity, read, r),
    ensures
        r is Ok ==> r->Ok_0.actions@.len() == 1,
        chosen is CancelAttempt ==> r is Ok && r->Ok_0.actions@[0] is CancelAttempt && r->Ok_0.actions@[0]->CancelAttempt_run_id
            == chosen->CancelAttempt_run_id && r->Ok_0.actions@[0]->CancelAttempt_attempt == chosen->CancelAttempt_attempt_no
            && r->Ok_0.actions@[0]->CancelAttempt_spec_hash == chosen->CancelAttempt_spec_hash,
        chosen is StartAttempt && r is Ok ==> {
            let told = r->Ok_0.actions@[0];
            &&& told is StartAttempt
            &&& told->StartAttempt_run_id == chosen->StartAttempt_run_id
            &&& told->StartAttempt_attempt == chosen->StartAttempt_attempt_no
            &&& told->StartAttempt_spec_hash == chosen->StartAttempt_spec_hash
            &&& told->execution_identity is Some <==> supports_identity
            &&& told->execution_identity is Some ==> told->execution_identity->0.mirror == chosen->mirror_name
            &&& crate::store::asked::reads_as(read, chosen->spec_json@, Ok(told->spec))
        },
        r is Err ==> chosen is StartAttempt && r->Err_0@.status == 500,
{
}

/// What a node reports of publishing stands until it reports again, and is forgotten once it reports
/// without; nothing of another node changes.
pub proof fn law_reports_of_publishing_stand(
    before: Seq<(String, PublicationObservation)>,
    after: Seq<(String, PublicationObservation)>,
    node: Seq<char>,
    request: PollRequest,
)
    requires
        publication_noted(before, after, node, request),
    ensures
        request.publication_health is None <==> observed(after, node) is None,
        request.publication_health is Some ==> observed(after, node)->0.last == request.publication_health->0,
        request.publication_health is Some && observed(before, node) is None ==> observed(after, node)->0.cumulative
            == request.publication_health->0,
        request.publication_health is Some && observed(before, node) is Some ==> observation::updated_by(
            observed(before, node)->0,
            observed(after, node)->0,
            request.agent_instance_id@,
            request.agent_boot_id@,
            declares(request, ATOMIC_EXCHANGE_V1@),
            request.publication_health->0,
        ),
        forall|other: Seq<char>| other != node ==> #[trigger] observed(after, other) == observed(before, other),
{
}

/// What the store gives is answered, and what it refuses is refused for its reason.
pub proof fn law_refusals_are_passed_on<T>(outcome: Result<T, StoreError>, r: Result<T, Failure>)
    requires
        failed_as(outcome, r),
    ensures
        r is Ok <==> outcome is Ok,
        r is Ok ==> r->Ok_0 == outcome->Ok_0,
        outcome is Err ==> r->Err_0@ == failure::store_failure(outcome->Err_0),
{
}

} // verus!
