//! What joins the tables to the configuration that they hold as text.
use crate::domain::compile;
use crate::domain::compile::RunSpecContext;
use crate::domain::config;
use crate::domain::config::ConfigFault;
use crate::domain::config::MirrorDocument;
use crate::domain::config::PublicationMode;
use crate::domain::ids;
use crate::domain::ids::AttemptNo;
use crate::domain::ids::MirrorName;
use crate::domain::ids::NodeName;
use crate::domain::ids::RunId;
use crate::domain::schedule;
use crate::domain::schedule::DueEvaluation;
use crate::domain::schedule::RetryContext;
use crate::domain::schedule::RetryDecision;
use crate::domain::schedule::ScheduleConfig;
use crate::domain::schedule::ScheduleRuntime;
use crate::domain::state::AttemptEvent;
use crate::domain::state::AttemptState;
use crate::domain::state::ProcessRunSpec;
use crate::domain::state::RunState;
use crate::outside;
use crate::outside::RunIdError;
use crate::store::asked::answers;
use crate::store::asked::reads_as;
use crate::store::cancellation;
use crate::store::cancellation::CancellationApplyResult;
use crate::store::dispatch;
use crate::store::dispatch::CompiledAttempt;
use crate::store::dispatch::DispatchSource;
use crate::store::dispatch::PollAction;
use crate::store::dispatch::PollChoice;
use crate::store::dispatch::RunPolicySnapshot;
use crate::store::events;
use crate::store::events::AttemptEventApplyResult;
use crate::store::events::TerminalDecision;
use crate::store::events::TerminalDecisionSource;
use crate::store::manual;
use crate::store::poll;
use crate::store::tables::RunRecord;
use crate::store::tables::Store;
use crate::store::tables::StoreError;
use crate::store::ticks;
use crate::store::ticks::ScheduleTickSource;
use crate::text;
use vstd::prelude::*;
use vstd::utf8::encode_utf8;

verus! {

/// True when an error refuses a configuration with a message.
pub open spec fn refuses(error: StoreError, message: Seq<char>) -> bool {
    error is InvalidConfig && error->InvalidConfig_0@ == message
}

/// The limits that a document sets to its runs.
pub open spec fn policy_of(document: MirrorDocument) -> RunPolicySnapshot {
    RunPolicySnapshot {
        max_attempts: document.run.max_attempts,
        retry_delay_ms: if document.run.retry_delay_seconds * 1000 > u64::MAX {
            u64::MAX
        } else {
            (document.run.retry_delay_seconds * 1000) as u64
        },
    }
}

/// The limits that a stored document sets, given what reading it came to.
pub open spec fn policy_outcome(
    parsed: Result<MirrorDocument, String>,
    r: Result<RunPolicySnapshot, StoreError>,
) -> bool {
    match parsed {
        Ok(document) => r == Ok::<RunPolicySnapshot, StoreError>(policy_of(document)),
        Err(message) => r is Err && refuses(r->Err_0, message@),
    }
}

fn limits(document: &MirrorDocument) -> (r: RunPolicySnapshot)
    ensures
        r == policy_of(*document),
{
    RunPolicySnapshot {
        max_attempts: document.run.max_attempts,
        retry_delay_ms: match document.run.retry_delay_seconds.checked_mul(1000) {
            Some(millis) => millis,
            None => u64::MAX,
        },
    }
}

/// The limits that a stored document sets, given what reading it came to.
pub fn compile_policy(parsed: Result<MirrorDocument, String>) -> (r: Result<RunPolicySnapshot, StoreError>)
    ensures
        policy_outcome(parsed, r),
{
    match parsed {
        Ok(document) => Ok(limits(&document)),
        Err(message) => Err(StoreError::InvalidConfig(message)),
    }
}

/// The message for a text that is no run identifier.
pub open spec fn run_id_message(error: RunIdError) -> Seq<char> {
    match error {
        RunIdError::InvalidLength => "invalid length"@,
        RunIdError::InvalidChar => "invalid character"@,
    }
}

/// What a text that should be a run identifier is refused for.
pub open spec fn run_id_fault(value: Seq<char>) -> Option<Seq<char>> {
    if encode_utf8(value).len() != 26 {
        Some(run_id_message(RunIdError::InvalidLength))
    } else if !outside::base32_digits(encode_utf8(value)) {
        Some(run_id_message(RunIdError::InvalidChar))
    } else {
        None
    }
}

/// What a text that should be a name of some kind is refused for.
pub open spec fn name_fault(kind: Seq<char>, value: Seq<char>) -> Option<Seq<char>> {
    if ids::is_name(value) {
        None
    } else {
        Some("invalid "@ + kind + ": "@ + outside::debug_quoted(value))
    }
}

/// Why an attempt cannot be compiled: the first of an unreadable document, a bad mirror name, node
/// name, run identifier or attempt number, and an atomic mirror without a publication root.
pub open spec fn compile_fault(
    source: DispatchSource,
    node: Seq<char>,
    publication_root: Option<Seq<char>>,
    parsed: Result<MirrorDocument, String>,
) -> Option<Seq<char>> {
    if parsed is Err {
        Some(parsed->Err_0@)
    } else if name_fault("mirror name"@, source.mirror_name@) is Some {
        name_fault("mirror name"@, source.mirror_name@)
    } else if name_fault("node name"@, node) is Some {
        name_fault("node name"@, node)
    } else if run_id_fault(source.run_id@) is Some {
        run_id_fault(source.run_id@)
    } else if source.attempt_no == 0 {
        Some("invalid "@ + "attempt number"@ + ": "@ + outside::debug_quoted(text::decimal(0)))
    } else if parsed->Ok_0.mode() == PublicationMode::Atomic && publication_root is None {
        Some(config::fault_message(ConfigFault::MissingPublicationRoot))
    } else {
        None
    }
}

/// True when a context is that of an attempt that is handed out.
pub open spec fn is_context(
    context: RunSpecContext,
    source: DispatchSource,
    node: Seq<char>,
    mirror_root: Seq<char>,
    publication_root: Option<Seq<char>>,
) -> bool {
    &&& context.mirror_name@ == source.mirror_name@
    &&& context.run_id.value == outside::base32_number(encode_utf8(source.run_id@))
    &&& context.attempt_no@ == source.attempt_no
    &&& context.node_name@ == node
    &&& context.mirror_root@ == mirror_root
    &&& match context.publication_root {
        Some(root) => publication_root == Some(root@),
        None => publication_root is None,
    }
}

/// True when a specification is the one for an attempt that is handed out.
pub open spec fn is_attempt_spec(
    spec: ProcessRunSpec,
    document: MirrorDocument,
    source: DispatchSource,
    node: Seq<char>,
    mirror_root: Seq<char>,
    publication_root: Option<Seq<char>>,
) -> bool {
    exists|context: RunSpecContext|
        #[trigger] is_context(context, source, node, mirror_root, publication_root) && compile::is_compiled(
            spec,
            document,
            context,
        )
}

/// The view of an optional borrowed text.
pub open spec fn borrowed_view(value: Option<&str>) -> Option<Seq<char>> {
    match value {
        Some(inner) => Some(inner@),
        None => None,
    }
}

/// Compiles the specification of an attempt that is handed out, and the limits of its run.
pub fn compile(
    source: &DispatchSource,
    node: &str,
    mirror_root: &str,
    publication_root: Option<&str>,
    parsed: Result<MirrorDocument, String>,
) -> (r: Result<(ProcessRunSpec, RunPolicySnapshot), StoreError>)
    ensures
        match r {
            Err(error) => {
                let fault = compile_fault(*source, node@, borrowed_view(publication_root), parsed);
                fault is Some && refuses(error, fault->0)
            },
            Ok((spec, policy)) => {
                &&& compile_fault(*source, node@, borrowed_view(publication_root), parsed) is None
                &&& policy == policy_of(parsed->Ok_0)
                &&& is_attempt_spec(
                    spec,
                    parsed->Ok_0,
                    *source,
                    node@,
                    mirror_root@,
                    borrowed_view(publication_root),
                )
            },
        },
{
    let document: MirrorDocument = match parsed {
        Ok(document) => document,
        Err(message) => {
            return Err(StoreError::InvalidConfig(message));
        },
    };
    let mirror: MirrorName = match MirrorName::new(source.mirror_name.as_str()) {
        Ok(name) => name,
        Err(error) => {
            return Err(StoreError::InvalidConfig(error.message()));
        },
    };
    let node_name: NodeName = match NodeName::new(node) {
        Ok(name) => name,
        Err(error) => {
            return Err(StoreError::InvalidConfig(error.message()));
        },
    };
    let run_id: RunId = match RunId::parse(source.run_id.as_str()) {
        Ok(id) => id,
        Err(RunIdError::InvalidLength) => {
            return Err(StoreError::InvalidConfig("invalid length".to_owned()));
        },
        Err(RunIdError::InvalidChar) => {
            return Err(StoreError::InvalidConfig("invalid character".to_owned()));
        },
    };
    let attempt_no: AttemptNo = match AttemptNo::new(source.attempt_no) {
        Ok(number) => number,
        Err(error) => {
            return Err(StoreError::InvalidConfig(error.message()));
        },
    };
    let context: RunSpecContext<'_> = RunSpecContext {
        mirror_name: &mirror,
        run_id,
        attempt_no,
        node_name: &node_name,
        mirror_root,
        publication_root,
    };
    assert(is_context(context, *source, node@, mirror_root@, borrowed_view(publication_root)));
    match compile::compile_process_run_spec(&document, &context) {
        Ok(spec) => Ok((spec, limits(&document))),
        Err(error) => Err(StoreError::InvalidConfig(error.message())),
    }
}

/// True when a compiled attempt holds its specification as written, under its fingerprint.
pub open spec fn is_sealed(compiled: CompiledAttempt, written: Seq<char>, policy: RunPolicySnapshot) -> bool {
    &&& compiled.spec_json@ == written
    &&& compiled.spec_hash@ == schedule::fingerprint(encode_utf8(written))
    &&& compiled.policy == policy
}

/// Puts a written specification under its fingerprint.
pub fn seal_attempt(written: String, policy: RunPolicySnapshot) -> (r: CompiledAttempt)
    ensures
        is_sealed(r, written@, policy),
{
    let spec_hash: String = schedule::fingerprint_of(written.as_str().as_bytes());
    CompiledAttempt { spec_json: written, spec_hash, policy }
}

/// What compiling an attempt comes to, where `parse` reads its configuration and `write` writes its
/// specification.
pub open spec fn attempt_outcome<
    P: FnOnce(&str) -> Result<MirrorDocument, String>,
    W: FnOnce(&ProcessRunSpec) -> Result<String, String>,
>(
    source: DispatchSource,
    node: Seq<char>,
    mirror_root: Seq<char>,
    publication_root: Option<Seq<char>>,
    parse: P,
    write: W,
    r: Result<CompiledAttempt, StoreError>,
) -> bool {
    exists|parsed: Result<MirrorDocument, String>|
        #[trigger] reads_as(parse, source.config_toml@, parsed) && match compile_fault(
            source,
            node,
            publication_root,
            parsed,
        ) {
            Some(message) => r is Err && refuses(r->Err_0, message),
            None => exists|spec: ProcessRunSpec, written: Result<String, String>|
                is_attempt_spec(spec, parsed->Ok_0, source, node, mirror_root, publication_root)
                    && #[trigger] call_ensures(write, (&spec,), written) && match written {
                    Ok(value) => r is Ok && is_sealed(r->Ok_0, value@, policy_of(parsed->Ok_0)),
                    Err(message) => r is Err && r->Err_0 is Serialization && r->Err_0->Serialization_0 == message,
                },
        }
}

/// Tells a node what to do next, compiling what is handed out for its roots.
pub fn next_action<
    P: FnOnce(&str) -> Result<MirrorDocument, String>,
    W: FnOnce(&ProcessRunSpec) -> Result<String, String>,
>(
    store: &mut Store,
    node: &str,
    mirror_root: &str,
    publication_root: Option<&str>,
    now: i64,
    parse: P,
    write: W,
) -> (r: Result<Option<PollAction>, StoreError>)
    requires
        old(store).wf(),
        forall|config: &str| #[trigger] call_requires(parse, (config,)),
        forall|spec: &ProcessRunSpec| #[trigger] call_requires(write, (spec,)),
    ensures
        final(store).wf(),
        exists|choice: PollChoice, id: RunId|
            #![trigger dispatch::is_next(*old(store), node@, now, choice), id.text()]
            dispatch::is_next(*old(store), node@, now, choice) && poll::polled(
                *old(store),
                *final(store),
                choice,
                id.text(),
                now,
                |source: DispatchSource, outcome: Result<CompiledAttempt, StoreError>|
                    attempt_outcome(
                        source,
                        node@,
                        mirror_root@,
                        borrowed_view(publication_root),
                        parse,
                        write,
                        outcome,
                    ),
                r,
            ),
{
    let compiler = |source: &DispatchSource| -> (outcome: Result<CompiledAttempt, StoreError>)
        requires
            forall|config: &str| #[trigger] call_requires(parse, (config,)),
            forall|spec: &ProcessRunSpec| #[trigger] call_requires(write, (spec,)),
        ensures
            attempt_outcome(*source, node@, mirror_root@, borrowed_view(publication_root), parse, write, outcome),
        {
            let config: &str = source.config_toml.as_str();
            let parsed: Result<MirrorDocument, String> = parse(config);
            let ghost read = parsed;
            proof {
                assert(call_ensures(parse, (config,), read));
                assert(reads_as(parse, source.config_toml@, read));
            }
            match compile(source, node, mirror_root, publication_root, parsed) {
                Err(error) => Err(error),
                Ok((spec, policy)) => {
                    let written: Result<String, String> = write(&spec);
                    assert(call_ensures(write, (&spec,), written));
                    match written {
                        Ok(value) => Ok(seal_attempt(value, policy)),
                        Err(message) => Err(StoreError::Serialization(message)),
                    }
                },
            }
        };
    let ghost before = *store;
    let r: Result<Option<PollAction>, StoreError> = store.poll_action(node, now, compiler);
    proof {
        let given = |source: DispatchSource, outcome: Result<CompiledAttempt, StoreError>|
            call_ensures(compiler, (&source,), outcome);
        let wanted = |source: DispatchSource, outcome: Result<CompiledAttempt, StoreError>|
            attempt_outcome(
                source,
                node@,
                mirror_root@,
                borrowed_view(publication_root),
                parse,
                write,
                outcome,
            );
        let (choice, id) = choose|choice: PollChoice, id: RunId|
            #![trigger dispatch::is_next(before, node@, now, choice), id.text()]
            dispatch::is_next(before, node@, now, choice) && poll::polled(
                before,
                *store,
                choice,
                id.text(),
                now,
                |source: DispatchSource, outcome: Result<CompiledAttempt, StoreError>|
                    call_ensures(compiler, (&source,), outcome),
                r,
            );
        assert(dispatch::is_next(before, node@, now, choice));
        assert(id.text() == id.text());
        lemma_polled_by(before, *store, choice, id.text(), now, given, wanted, r);
    }
    r
}

proof fn lemma_polled_by(
    before: Store,
    after: Store,
    choice: PollChoice,
    fresh: Seq<char>,
    now: i64,
    given: spec_fn(DispatchSource, Result<CompiledAttempt, StoreError>) -> bool,
    wanted: spec_fn(DispatchSource, Result<CompiledAttempt, StoreError>) -> bool,
    r: Result<Option<PollAction>, StoreError>,
)
    requires
        poll::polled(before, after, choice, fresh, now, given, r),
        forall|source: DispatchSource, outcome: Result<CompiledAttempt, StoreError>| #[trigger]
            answers(given, source, outcome) ==> answers(wanted, source, outcome),
    ensures
        poll::polled(before, after, choice, fresh, now, wanted, r),
{
}

/// What reading a run's limits comes to, where `parse` reads the configuration.
pub open spec fn policy_read<P: FnOnce(&str) -> Result<MirrorDocument, String>>(
    parse: P,
    config: Seq<char>,
    r: Result<RunPolicySnapshot, StoreError>,
) -> bool {
    exists|parsed: Result<MirrorDocument, String>|
        #[trigger] reads_as(parse, config, parsed) && policy_outcome(parsed, r)
}

/// Asks for a run of a mirror under a request identifier.
pub fn create_manual_run<P: FnOnce(&str) -> Result<MirrorDocument, String>>(
    store: &mut Store,
    mirror: &str,
    request_id: &str,
    now: i64,
    parse: P,
) -> (r: Result<RunRecord, StoreError>)
    requires
        old(store).wf(),
        forall|config: &str| #[trigger] call_requires(parse, (config,)),
    ensures
        final(store).wf(),
        exists|id: RunId|
            manual::manual_outcome(
                *old(store),
                *final(store),
                mirror@,
                request_id@,
                now,
                #[trigger] id.text(),
                |config: Seq<char>, outcome: Result<RunPolicySnapshot, StoreError>|
                    policy_read(parse, config, outcome),
                r,
            ),
{
    let policy = |config: &str| -> (outcome: Result<RunPolicySnapshot, StoreError>)
        requires
            forall|config: &str| #[trigger] call_requires(parse, (config,)),
        ensures
            policy_read(parse, config@, outcome),
        {
            let parsed: Result<MirrorDocument, String> = parse(config);
            let ghost read = parsed;
            proof {
                assert(call_ensures(parse, (config,), read));
                assert(reads_as(parse, config@, read));
            }
            compile_policy(parsed)
        };
    let ghost before = *store;
    let r: Result<RunRecord, StoreError> = store.create_manual_run(mirror, request_id, now, policy);
    proof {
        let given = |config: Seq<char>, outcome: Result<RunPolicySnapshot, StoreError>|
            reads_as(policy, config, outcome);
        let wanted = |config: Seq<char>, outcome: Result<RunPolicySnapshot, StoreError>|
            policy_read(parse, config, outcome);
        let id = choose|id: RunId|
            manual::manual_outcome(
                before,
                *store,
                mirror@,
                request_id@,
                now,
                #[trigger] id.text(),
                |config: Seq<char>, outcome: Result<RunPolicySnapshot, StoreError>|
                    reads_as(policy, config, outcome),
                r,
            );
        lemma_manual_by(before, *store, mirror@, request_id@, now, id.text(), given, wanted, r);
    }
    r
}

proof fn lemma_manual_by(
    before: Store,
    after: Store,
    mirror: Seq<char>,
    request_id: Seq<char>,
    now: i64,
    id: Seq<char>,
    given: spec_fn(Seq<char>, Result<RunPolicySnapshot, StoreError>) -> bool,
    wanted: spec_fn(Seq<char>, Result<RunPolicySnapshot, StoreError>) -> bool,
    r: Result<RunRecord, StoreError>,
)
    requires
        manual::manual_outcome(before, after, mirror, request_id, now, id, given, r),
        forall|config: Seq<char>, outcome: Result<RunPolicySnapshot, StoreError>| #[trigger]
            answers(given, config, outcome) ==> answers(wanted, config, outcome),
    ensures
        manual::manual_outcome(before, after, mirror, request_id, now, id, wanted, r),
{
}

/// When the interval of a document is due again after a moment; one without an interval never is.
pub open spec fn rearmed_at(document: MirrorDocument, now: i64) -> Result<Option<i64>, Seq<char>> {
    match document.schedule {
        Some(config) => schedule::rearmed(config, now),
        None => Ok(None),
    }
}

/// When the interval of a stored document is due again, given what reading it came to.
pub open spec fn rearm_outcome(
    parsed: Result<MirrorDocument, String>,
    now: i64,
    r: Result<Option<i64>, StoreError>,
) -> bool {
    match parsed {
        Err(message) => r is Err && refuses(r->Err_0, message@),
        Ok(document) => match rearmed_at(document, now) {
            Ok(next) => r == Ok::<Option<i64>, StoreError>(next),
            Err(message) => r is Err && refuses(r->Err_0, message),
        },
    }
}

/// When the interval of a stored document is due again, given what reading it came to.
pub fn rearm(parsed: Result<MirrorDocument, String>, now: i64) -> (r: Result<Option<i64>, StoreError>)
    ensures
        rearm_outcome(parsed, now, r),
{
    match parsed {
        Err(message) => Err(StoreError::InvalidConfig(message)),
        Ok(document) => match &document.schedule {
            None => Ok(None),
            Some(config) => match schedule::rearm_interval(config, now) {
                Ok(next) => Ok(next),
                Err(message) => Err(StoreError::InvalidConfig(message)),
            },
        },
    }
}

/// What rearming comes to, where `parse` reads the configuration.
pub open spec fn rearm_read<P: FnOnce(&str) -> Result<MirrorDocument, String>>(
    parse: P,
    config: Seq<char>,
    now: i64,
    r: Result<Option<i64>, StoreError>,
) -> bool {
    exists|parsed: Result<MirrorDocument, String>|
        #[trigger] reads_as(parse, config, parsed) && rearm_outcome(parsed, now, r)
}

/// Asks for the cancellation of a run.
pub fn request_cancellation<P: FnOnce(&str) -> Result<MirrorDocument, String>>(
    store: &mut Store,
    run_id: &str,
    now: i64,
    parse: P,
) -> (r: Result<CancellationApplyResult, StoreError>)
    requires
        old(store).wf(),
        forall|config: &str| #[trigger] call_requires(parse, (config,)),
    ensures
        final(store).wf(),
        cancellation::cancellation_outcome(
            *old(store),
            *final(store),
            run_id@,
            now,
            |config: Seq<char>, outcome: Result<Option<i64>, StoreError>| rearm_read(parse, config, now, outcome),
            r,
        ),
{
    let rearmer = |config: &str| -> (outcome: Result<Option<i64>, StoreError>)
        requires
            forall|config: &str| #[trigger] call_requires(parse, (config,)),
        ensures
            rearm_read(parse, config@, now, outcome),
        {
            let parsed: Result<MirrorDocument, String> = parse(config);
            let ghost read = parsed;
            proof {
                assert(call_ensures(parse, (config,), read));
                assert(reads_as(parse, config@, read));
            }
            rearm(parsed, now)
        };
    let ghost before = *store;
    let r: Result<CancellationApplyResult, StoreError> = store.request_cancellation(run_id, now, rearmer);
    proof {
        let given = |config: Seq<char>, outcome: Result<Option<i64>, StoreError>| reads_as(rearmer, config, outcome);
        let wanted = |config: Seq<char>, outcome: Result<Option<i64>, StoreError>|
            rearm_read(parse, config, now, outcome);
        lemma_cancelled_by(before, *store, run_id@, now, given, wanted, r);
    }
    r
}

proof fn lemma_cancelled_by(
    before: Store,
    after: Store,
    run_id: Seq<char>,
    now: i64,
    given: spec_fn(Seq<char>, Result<Option<i64>, StoreError>) -> bool,
    wanted: spec_fn(Seq<char>, Result<Option<i64>, StoreError>) -> bool,
    r: Result<CancellationApplyResult, StoreError>,
)
    requires
        cancellation::cancellation_outcome(before, after, run_id, now, given, r),
        forall|config: Seq<char>, outcome: Result<Option<i64>, StoreError>| #[trigger]
            answers(given, config, outcome) ==> answers(wanted, config, outcome),
    ensures
        cancellation::cancellation_outcome(before, after, run_id, now, wanted, r),
{
}

/// What a retry is decided by at the end of an attempt.
pub open spec fn retry_context(source: TerminalDecisionSource, now: i64) -> RetryContext {
    RetryContext {
        outcome: source.outcome,
        attempt_no: source.attempt_no,
        max_attempts: source.max_attempts,
        retry_delay_seconds: source.retry_delay_ms / 1000,
        cancel_requested: source.cancel_requested,
        mirror_eligible: source.mirror_eligible,
        owner_unchanged: source.owner_unchanged,
        server_now_ms: now,
    }
}

/// What follows the end of an attempt, where `parse` reads the mirror's current configuration: a
/// retry or an end, and for a mirror that its owner still runs the next moment of its interval.
pub open spec fn terminal_outcome<P: FnOnce(&str) -> Result<MirrorDocument, String>>(
    source: TerminalDecisionSource,
    now: i64,
    parse: P,
    r: Result<TerminalDecision, StoreError>,
) -> bool {
    let retry = schedule::retry_decision(retry_context(source, now));
    if source.mirror_eligible && source.owner_unchanged {
        exists|next: Result<Option<i64>, StoreError>|
            #[trigger] rearm_read(parse, source.current_config_toml@, now, next) && match next {
                Ok(moment) => r == Ok::<TerminalDecision, StoreError>(
                    (TerminalDecision { retry, interval_next_due_at_ms: moment }),
                ),
                Err(error) => r == Err::<TerminalDecision, StoreError>(error),
            }
    } else {
        r == Ok::<TerminalDecision, StoreError>((TerminalDecision { retry, interval_next_due_at_ms: None }))
    }
}

/// Decides what follows the end of an attempt.
pub fn decide_terminal<P: FnOnce(&str) -> Result<MirrorDocument, String>>(
    source: TerminalDecisionSource,
    now: i64,
    parse: P,
) -> (r: Result<TerminalDecision, StoreError>)
    requires
        forall|config: &str| #[trigger] call_requires(parse, (config,)),
    ensures
        terminal_outcome(source, now, parse, r),
{
    let retry: schedule::RetryDecision = schedule::decide_retry(
        RetryContext {
            outcome: source.outcome,
            attempt_no: source.attempt_no,
            max_attempts: source.max_attempts,
            retry_delay_seconds: source.retry_delay_ms / 1000,
            cancel_requested: source.cancel_requested,
            mirror_eligible: source.mirror_eligible,
            owner_unchanged: source.owner_unchanged,
            server_now_ms: now,
        },
    );
    if source.mirror_eligible && source.owner_unchanged {
        let config: &str = source.current_config_toml.as_str();
        let parsed: Result<MirrorDocument, String> = parse(config);
        let ghost read = parsed;
        let next: Result<Option<i64>, StoreError> = rearm(parsed, now);
        proof {
            assert(call_ensures(parse, (config,), read));
            assert(reads_as(parse, source.current_config_toml@, read));
            assert(rearm_read(parse, source.current_config_toml@, now, next));
        }
        match next {
            Ok(moment) => Ok(TerminalDecision { retry, interval_next_due_at_ms: moment }),
            Err(error) => Err(error),
        }
    } else {
        Ok(TerminalDecision { retry, interval_next_due_at_ms: None })
    }
}

/// Takes an event of an attempt.
pub fn apply_attempt_event<P: FnOnce(&str) -> Result<MirrorDocument, String>>(
    store: &mut Store,
    run_id: &str,
    attempt_no: u32,
    event: &AttemptEvent,
    now: i64,
    parse: P,
) -> (r: Result<AttemptEventApplyResult, StoreError>)
    requires
        old(store).wf(),
        forall|config: &str| #[trigger] call_requires(parse, (config,)),
    ensures
        final(store).wf(),
        events::event_outcome(
            *old(store),
            *final(store),
            run_id@,
            attempt_no,
            *event,
            now,
            |source: TerminalDecisionSource, outcome: Result<TerminalDecision, StoreError>|
                terminal_outcome(source, now, parse, outcome),
            r,
        ),
{
    let decide = |source: TerminalDecisionSource, at: i64| -> (outcome: Result<TerminalDecision, StoreError>)
        requires
            forall|config: &str| #[trigger] call_requires(parse, (config,)),
        ensures
            terminal_outcome(source, at, parse, outcome),
            outcome is Ok && outcome->Ok_0.retry is Final ==> outcome->Ok_0.retry->Final_0.terminal(),
        { decide_terminal(source, at, parse) };
    let ghost before = *store;
    let r: Result<AttemptEventApplyResult, StoreError> = store.apply_event(run_id, attempt_no, event, now, decide);
    proof {
        let given = |source: TerminalDecisionSource, outcome: Result<TerminalDecision, StoreError>|
            call_ensures(decide, (source, now), outcome);
        let wanted = |source: TerminalDecisionSource, outcome: Result<TerminalDecision, StoreError>|
            terminal_outcome(source, now, parse, outcome);
        lemma_event_by(before, *store, run_id@, attempt_no, *event, now, given, wanted, r);
    }
    r
}

proof fn lemma_event_by(
    before: Store,
    after: Store,
    run_id: Seq<char>,
    attempt_no: u32,
    event: AttemptEvent,
    now: i64,
    given: spec_fn(TerminalDecisionSource, Result<TerminalDecision, StoreError>) -> bool,
    wanted: spec_fn(TerminalDecisionSource, Result<TerminalDecision, StoreError>) -> bool,
    r: Result<AttemptEventApplyResult, StoreError>,
)
    requires
        events::event_outcome(before, after, run_id, attempt_no, event, now, given, r),
        forall|source: TerminalDecisionSource, outcome: Result<TerminalDecision, StoreError>| #[trigger]
            answers(given, source, outcome) ==> answers(wanted, source, outcome),
    ensures
        events::event_outcome(before, after, run_id, attempt_no, event, now, wanted, r),
{
}

/// What looking at a schedule that is due counts as.
#[derive(Clone, Copy, Debug, PartialEq, Eq, Structural)]
pub enum TickKind {
    IntervalDue,
    IntervalSkipped,
    CronDue,
    CronSkipped,
}

/// What looking at the schedules that are due came to.
#[derive(Clone, Copy, Debug, PartialEq, Eq, Structural)]
pub struct ScheduleEvaluationMetrics {
    pub evaluated: u64,
    pub interval_due: u64,
    pub interval_skipped: u64,
    pub cron_due: u64,
    pub cron_skipped: u64,
}

impl Default for ScheduleEvaluationMetrics {
    fn default() -> (r: Self)
        ensures
            r.evaluated == 0,
            r.interval_due == 0,
            r.interval_skipped == 0,
            r.cron_due == 0,
            r.cron_skipped == 0,
    {
        ScheduleEvaluationMetrics { evaluated: 0, interval_due: 0, interval_skipped: 0, cron_due: 0, cron_skipped: 0 }
    }
}

/// What looking at a schedule counts as: by the form of the schedule, and by whether a run was in
/// flight.
pub open spec fn tick_kind(config: ScheduleConfig, skipped: bool) -> TickKind {
    match (config, skipped) {
        (ScheduleConfig::Interval { .. }, false) => TickKind::IntervalDue,
        (ScheduleConfig::Interval { .. }, true) => TickKind::IntervalSkipped,
        (ScheduleConfig::Cron { .. }, false) => TickKind::CronDue,
        (ScheduleConfig::Cron { .. }, true) => TickKind::CronSkipped,
    }
}

/// What looking at a stored schedule comes to, given what reading its document came to.
pub open spec fn tick_outcome(
    parsed: Result<MirrorDocument, String>,
    source: ScheduleTickSource,
    now: i64,
    r: Result<(ScheduleRuntime, TickKind), StoreError>,
) -> bool {
    match parsed {
        Err(message) => r is Err && refuses(r->Err_0, message@),
        Ok(document) => match document.schedule {
            None => r is Err && refuses(r->Err_0, "scheduled mirror has no schedule"@),
            Some(config) => match schedule::evaluated(config, source.runtime, now, source.has_active_run) {
                Err(message) => r is Err && refuses(r->Err_0, message),
                Ok(found) => r == Ok::<(ScheduleRuntime, TickKind), StoreError>(
                    (found.runtime, tick_kind(config, found.skipped_while_active)),
                ),
            },
        },
    }
}

/// Looks at a stored schedule, given what reading its document came to.
pub fn tick(parsed: Result<MirrorDocument, String>, source: &ScheduleTickSource, now: i64) -> (r: Result<
    (ScheduleRuntime, TickKind),
    StoreError,
>)
    ensures
        tick_outcome(parsed, *source, now, r),
{
    match parsed {
        Err(message) => Err(StoreError::InvalidConfig(message)),
        Ok(document) => match &document.schedule {
            None => Err(StoreError::InvalidConfig("scheduled mirror has no schedule".to_owned())),
            Some(config) => {
                let found: Result<DueEvaluation, String> = schedule::evaluate_schedule_due(
                    config,
                    source.runtime,
                    now,
                    source.has_active_run,
                );
                match found {
                    Err(message) => Err(StoreError::InvalidConfig(message)),
                    Ok(evaluation) => {
                        let kind: TickKind = match (config, evaluation.skipped_while_active) {
                            (ScheduleConfig::Interval { .. }, false) => TickKind::IntervalDue,
                            (ScheduleConfig::Interval { .. }, true) => TickKind::IntervalSkipped,
                            (ScheduleConfig::Cron { .. }, false) => TickKind::CronDue,
                            (ScheduleConfig::Cron { .. }, true) => TickKind::CronSkipped,
                        };
                        Ok((evaluation.runtime, kind))
                    },
                }
            },
        },
    }
}

/// What looking at a stored schedule comes to, where `parse` reads its document.
pub open spec fn tick_read<P: Fn(&str) -> Result<MirrorDocument, String>>(
    parse: P,
    source: ScheduleTickSource,
    now: i64,
    r: Result<(ScheduleRuntime, TickKind), StoreError>,
) -> bool {
    exists|parsed: Result<MirrorDocument, String>|
        #[trigger] reads_as(parse, source.config_toml@, parsed) && tick_outcome(parsed, source, now, r)
}

/// How often a kind occurs.
pub open spec fn occurrences(kinds: Seq<TickKind>, kind: TickKind) -> nat
    decreases kinds.len(),
{
    if kinds.len() == 0 {
        0
    } else {
        occurrences(kinds.drop_last(), kind) + (if kinds.last() == kind { 1nat } else { 0nat })
    }
}

/// True when the schedules that were due hold what looking at them found, counted by kind, and all
/// others are as they were.
pub open spec fn schedules_evaluated<P: Fn(&str) -> Result<MirrorDocument, String>>(
    before: Store,
    after: Store,
    order: Seq<int>,
    kinds: Seq<TickKind>,
    now: i64,
    parse: P,
) -> bool {
    &&& ticks::is_due_order(before, now, order)
    &&& kinds.len() == order.len()
    &&& after == (Store { schedules: after.schedules, ..before })
    &&& after.schedules@.len() == before.schedules@.len()
    &&& forall|k: int|
        0 <= k < before.schedules@.len() ==> (#[trigger] after.schedules@[k]) == (if ticks::is_due(before, k, now) {
            crate::store::tables::ScheduleRow { runtime: after.schedules@[k].runtime, ..before.schedules@[k] }
        } else {
            before.schedules@[k]
        })
    &&& forall|m: int|
        0 <= m < order.len() ==> tick_read(
            parse,
            ticks::tick_source(before, order[m]),
            now,
            Ok((after.schedules@[#[trigger] order[m]].runtime, kinds[m])),
        )
}

/// True when looking at schedule `order[m]` failed, after all before it had succeeded.
pub open spec fn evaluation_failed<P: Fn(&str) -> Result<MirrorDocument, String>>(
    before: Store,
    order: Seq<int>,
    m: int,
    error: StoreError,
    now: i64,
    parse: P,
) -> bool {
    &&& ticks::is_due_order(before, now, order)
    &&& 0 <= m < order.len()
    &&& tick_read(parse, ticks::tick_source(before, order[m]), now, Err(error))
    &&& forall|l: int|
        0 <= l < m ==> exists|outcome: (ScheduleRuntime, TickKind)|
            tick_read(parse, ticks::tick_source(before, #[trigger] order[l]), now, Ok(outcome))
}

/// True when the counts are those of the kinds.
pub open spec fn counts_kinds(metrics: ScheduleEvaluationMetrics, kinds: Seq<TickKind>) -> bool {
    &&& metrics.evaluated == kinds.len()
    &&& metrics.interval_due == occurrences(kinds, TickKind::IntervalDue)
    &&& metrics.interval_skipped == occurrences(kinds, TickKind::IntervalSkipped)
    &&& metrics.cron_due == occurrences(kinds, TickKind::CronDue)
    &&& metrics.cron_skipped == occurrences(kinds, TickKind::CronSkipped)
}

fn count_kinds(kinds: &Vec<TickKind>) -> (r: ScheduleEvaluationMetrics)
    ensures
        counts_kinds(r, kinds@),
{
    let mut metrics: ScheduleEvaluationMetrics = ScheduleEvaluationMetrics::default();
    let mut i: usize = 0;
    while i < kinds.len()
        invariant
            i <= kinds.len(),
            counts_kinds(metrics, kinds@.take(i as int)),
            metrics.interval_due <= i,
            metrics.interval_skipped <= i,
            metrics.cron_due <= i,
            metrics.cron_skipped <= i,
        decreases kinds.len() - i,
    {
        assert(kinds@.take(i + 1).drop_last() == kinds@.take(i as int));
        match kinds[i] {
            TickKind::IntervalDue => {
                metrics.interval_due = metrics.interval_due + 1;
            },
            TickKind::IntervalSkipped => {
                metrics.interval_skipped = metrics.interval_skipped + 1;
            },
            TickKind::CronDue => {
                metrics.cron_due = metrics.cron_due + 1;
            },
            TickKind::CronSkipped => {
                metrics.cron_skipped = metrics.cron_skipped + 1;
            },
        }
        metrics.evaluated = metrics.evaluated + 1;
        i = i + 1;
    }
    assert(kinds@.take(kinds@.len() as int) == kinds@);
    metrics
}

/// Looks at every schedule that is due, and counts what it found. When looking at one fails, nothing
/// changes.
pub fn evaluate_schedules<P: Fn(&str) -> Result<MirrorDocument, String> + Copy>(
    store: &mut Store,
    now: i64,
    parse: P,
) -> (r: Result<ScheduleEvaluationMetrics, StoreError>)
    requires
        old(store).wf(),
        forall|config: &str| #[trigger] call_requires(parse, (config,)),
    ensures
        final(store).wf(),
        match r {
            Ok(metrics) => exists|order: Seq<int>, kinds: Seq<TickKind>|
                #[trigger] schedules_evaluated(*old(store), *final(store), order, kinds, now, parse) && counts_kinds(
                    metrics,
                    kinds,
                ),
            Err(error) => {
                &&& *final(store) == *old(store)
                &&& exists|order: Seq<int>, m: int|
                    #[trigger] evaluation_failed(*old(store), order, m, error, now, parse)
            },
        },
{
    let evaluate = |source: &ScheduleTickSource| -> (outcome: Result<(ScheduleRuntime, TickKind), StoreError>)
        requires
            forall|config: &str| #[trigger] call_requires(parse, (config,)),
        ensures
            tick_read(parse, *source, now, outcome),
        {
            let config: &str = source.config_toml.as_str();
            let parsed: Result<MirrorDocument, String> = parse(config);
            let ghost read = parsed;
            proof {
                assert(call_ensures(parse, (config,), read));
                assert(reads_as(parse, source.config_toml@, read));
            }
            tick(parsed, source, now)
        };
    let ghost before = *store;
    let outcome: Result<Vec<TickKind>, StoreError> = store.evaluate_due_schedules(now, evaluate);
    match outcome {
        Err(error) => {
            let fault: Result<ScheduleEvaluationMetrics, StoreError> = Err(error);
            proof {
                let (order, m) = choose|order: Seq<int>, m: int|
                    #[trigger] ticks::tick_failed::<TickKind, _>(before, order, m, error, now, evaluate);
                assert forall|l: int| 0 <= l < m implies exists|outcome: (ScheduleRuntime, TickKind)|
                    tick_read(parse, ticks::tick_source(before, #[trigger] order[l]), now, Ok(outcome)) by {
                    let outcome = choose|outcome: (ScheduleRuntime, TickKind)|
                        call_ensures(evaluate, (&ticks::tick_source(before, order[l]),), Ok(outcome));
                    assert(tick_read(parse, ticks::tick_source(before, order[l]), now, Ok(outcome)));
                }
                assert(evaluation_failed(before, order, m, fault->Err_0, now, parse));
            }
            fault
        },
        Ok(kinds) => {
            let counted: Result<ScheduleEvaluationMetrics, StoreError> = Ok(count_kinds(&kinds));
            proof {
                let order = choose|order: Seq<int>|
                    #[trigger] ticks::ticked(before, *store, order, kinds@, now, evaluate);
                assert(schedules_evaluated(before, *store, order, kinds@, now, parse));
                assert(counts_kinds(counted->Ok_0, kinds@));
            }
            counted
        },
    }
}

/// A run is given the limits of its mirror's document: as many attempts as it says, and its delay in
/// thousandths of a second where that can be counted.
pub proof fn law_runs_are_limited_by_their_document(document: MirrorDocument, r: RunPolicySnapshot)
    requires
        policy_outcome(Ok(document), Ok(r)),
    ensures
        r.max_attempts == document.run.max_attempts,
        document.run.retry_delay_seconds * 1000 <= u64::MAX ==> r.retry_delay_ms == document.run.retry_delay_seconds * 1000,
        document.run.retry_delay_seconds * 1000 > u64::MAX ==> r.retry_delay_ms == u64::MAX,
        r.retry_delay_ms / 1000 <= document.run.retry_delay_seconds,
{
}

/// The delay that a document gives is the delay that its retries wait for: what is kept with the run
/// is read back as the same number of seconds.
pub proof fn law_delays_are_kept_and_read_back(document: MirrorDocument, source: TerminalDecisionSource, now: i64)
    requires
        source.retry_delay_ms == policy_of(document).retry_delay_ms,
        document.run.retry_delay_seconds * 1000 <= u64::MAX,
    ensures
        retry_context(source, now).retry_delay_seconds == document.run.retry_delay_seconds,
{
}

/// What ends an attempt is decided by what its source holds: a failed, interrupted or timed out attempt
/// is followed by another one after the run's delay where attempts are left, nobody asked to cancel and
/// the mirror is in force on the run's node, and by nothing else; whatever was asked of the mirror's
/// configuration, it bears on the schedule alone.
pub proof fn law_ends_are_followed_by_what_their_source_gives<P: FnOnce(&str) -> Result<MirrorDocument, String>>(
    source: TerminalDecisionSource,
    now: i64,
    parse: P,
    decision: TerminalDecision,
)
    requires
        terminal_outcome(source, now, parse, Ok(decision)),
    ensures
        ({
            let again = (source.outcome == AttemptState::Failed || source.outcome == AttemptState::TimedOut || source.outcome
                == AttemptState::Interrupted) && source.attempt_no < source.max_attempts && !source.cancel_requested
                && source.mirror_eligible && source.owner_unchanged;
            &&& decision.retry is Schedule <==> again
            &&& again && source.retry_delay_ms <= i64::MAX && now + (source.retry_delay_ms / 1000) * 1000 <= i64::MAX ==> decision.retry->retry_due_at_ms == now + (
            source.retry_delay_ms / 1000) * 1000
            &&& again && source.retry_delay_ms % 1000 == 0 && source.retry_delay_ms <= i64::MAX && now
                + source.retry_delay_ms <= i64::MAX ==> decision.retry->retry_due_at_ms == now + source.retry_delay_ms
            &&& source.outcome == AttemptState::Succeeded ==> decision.retry == RetryDecision::Final(RunState::Succeeded)
            &&& source.outcome == AttemptState::Cancelled ==> decision.retry == RetryDecision::Final(RunState::Cancelled)
            &&& !source.mirror_eligible || !source.owner_unchanged ==> decision.interval_next_due_at_ms is None
        }),
{
    vstd::arithmetic::div_mod::lemma_fundamental_div_mod(source.retry_delay_ms as int, 1000);
}

/// The end of a run puts only a schedule of intervals in force anew, one interval after the end; a
/// schedule by the calendar, a mirror without a schedule and one that is no longer in force on the
/// node wait for nothing more on that account.
pub proof fn law_ends_put_intervals_in_force_anew(document: MirrorDocument, now: i64, next: Option<i64>)
    requires
        rearm_outcome(Ok(document), now, Ok(next)),
    ensures
        document.schedule is None ==> next is None,
        document.schedule is Some && document.schedule->0 is Cron ==> next is None,
        document.schedule is Some && document.schedule->0 is Interval ==> next is Some && Ok::<Option<i64>, Seq<char>>(next)
            == schedule::rearmed(document.schedule->0, now),
{
}

/// A configuration that cannot be read is refused with what reading said, wherever it is asked for.
pub proof fn law_unreadable_configurations_are_refused_alike(
    message: String,
    source: ScheduleTickSource,
    now: i64,
    limits: Result<RunPolicySnapshot, StoreError>,
    next: Result<Option<i64>, StoreError>,
    found: Result<(ScheduleRuntime, TickKind), StoreError>,
)
    requires
        policy_outcome(Err(message), limits),
        rearm_outcome(Err(message), now, next),
        tick_outcome(Err(message), source, now, found),
    ensures
        limits is Err && limits->Err_0 is InvalidConfig && limits->Err_0->InvalidConfig_0@ == message@,
        next is Err && next->Err_0 is InvalidConfig && next->Err_0->InvalidConfig_0@ == message@,
        found is Err && found->Err_0 is InvalidConfig && found->Err_0->InvalidConfig_0@ == message@,
{
}

/// What looking at a schedule comes to is told by its kind and by whether a run was in the way: a run
/// waits where no run has not ended, and is passed over where one has not.
pub proof fn law_ticks_are_told_by_kind(
    document: MirrorDocument,
    source: ScheduleTickSource,
    now: i64,
    runtime: ScheduleRuntime,
    kind: TickKind,
)
    requires
        tick_outcome(Ok(document), source, now, Ok((runtime, kind))),
        source.runtime.next_due_at_ms is Some,
        source.runtime.next_due_at_ms->0 <= now,
    ensures
        document.schedule is Some,
        (kind == TickKind::IntervalDue || kind == TickKind::IntervalSkipped) <==> document.schedule->0 is Interval,
        (kind == TickKind::CronDue || kind == TickKind::CronSkipped) <==> document.schedule->0 is Cron,
        (kind == TickKind::IntervalSkipped || kind == TickKind::CronSkipped) <==> source.has_active_run,
        !source.has_active_run ==> runtime.catch_up_pending,
        source.has_active_run ==> !runtime.catch_up_pending && runtime.catch_up_since_ms is None,
        !source.has_active_run ==> runtime.catch_up_since_ms is Some,
        document.schedule->0 is Interval ==> runtime.next_due_at_ms is None,
        document.schedule->0 is Cron ==> runtime.next_due_at_ms is Some,
        runtime.last_evaluated_at_ms == Some(now),
{
}

/// Every schedule that was looked at is counted once, under its own kind.
pub proof fn law_every_tick_is_counted_once(metrics: ScheduleEvaluationMetrics, kinds: Seq<TickKind>)
    requires
        counts_kinds(metrics, kinds),
    ensures
        metrics.evaluated == metrics.interval_due + metrics.interval_skipped + metrics.cron_due + metrics.cron_skipped,
        metrics.evaluated == kinds.len(),
        metrics.interval_due > 0 <==> kinds.contains(TickKind::IntervalDue),
        metrics.interval_skipped > 0 <==> kinds.contains(TickKind::IntervalSkipped),
        metrics.cron_due > 0 <==> kinds.contains(TickKind::CronDue),
        metrics.cron_skipped > 0 <==> kinds.contains(TickKind::CronSkipped),
{
    lemma_occurrences_sum(kinds);
    lemma_occurrences_of(kinds, TickKind::IntervalDue);
    lemma_occurrences_of(kinds, TickKind::IntervalSkipped);
    lemma_occurrences_of(kinds, TickKind::CronDue);
    lemma_occurrences_of(kinds, TickKind::CronSkipped);
}

proof fn lemma_occurrences_sum(kinds: Seq<TickKind>)
    ensures
        kinds.len() == occurrences(kinds, TickKind::IntervalDue) + occurrences(kinds, TickKind::IntervalSkipped)
            + occurrences(kinds, TickKind::CronDue) + occurrences(kinds, TickKind::CronSkipped),
    decreases kinds.len(),
{
    if kinds.len() > 0 {
        lemma_occurrences_sum(kinds.drop_last());
    }
}

proof fn lemma_occurrences_of(kinds: Seq<TickKind>, kind: TickKind)
    ensures
        occurrences(kinds, kind) > 0 <==> kinds.contains(kind),
    decreases kinds.len(),
{
    if kinds.len() > 0 {
        lemma_occurrences_of(kinds.drop_last(), kind);
        if kinds.contains(kind) && kinds.last() != kind {
            let i = choose|i: int| 0 <= i < kinds.len() && kinds[i] == kind;
            assert(kinds.drop_last()[i] == kind);
        }
        if kinds.drop_last().contains(kind) {
            let i = choose|i: int| 0 <= i < kinds.drop_last().len() && kinds.drop_last()[i] == kind;
            assert(kinds[i] == kind);
        }
        if kinds.last() == kind {
            assert(kinds[kinds.len() - 1] == kind);
        }
    }
}

/// What is handed out is compiled for its own run: an attempt names its mirror, run, attempt number and
/// node in its environment, and a document that publishes whole directories is not compiled for a node
/// without a place to publish from.
pub proof fn law_attempts_are_compiled_for_their_run(
    source: DispatchSource,
    node: Seq<char>,
    mirror_root: Seq<char>,
    publication_root: Option<Seq<char>>,
    document: MirrorDocument,
    context: RunSpecContext,
)
    requires
        is_context(context, source, node, mirror_root, publication_root),
    ensures
        context.mirror_name@ == source.mirror_name@,
        context.attempt_no@ == source.attempt_no,
        context.node_name@ == node,
        context.mirror_root@ == mirror_root,
        context.publication_root is Some <==> publication_root is Some,
        context.publication_root is Some ==> context.publication_root->0@ == publication_root->0,
        document.mode() == PublicationMode::Atomic && publication_root is None ==> compile_fault(
            source,
            node,
            publication_root,
            Ok(document),
        ) is Some,
        source.attempt_no == 0 || !ids::is_name(source.mirror_name@) || !ids::is_name(node) ==> compile_fault(
            source,
            node,
            publication_root,
            Ok(document),
        ) is Some,
        compile_fault(source, node, publication_root, Ok(document)) is None <==> source.attempt_no > 0 && ids::is_name(
            source.mirror_name@,
        ) && ids::is_name(node) && encode_utf8(source.run_id@).len() == 26 && outside::base32_digits(
            encode_utf8(source.run_id@),
        ) && (document.mode() == PublicationMode::Atomic ==> publication_root is Some),
{
}

/// An attempt is handed out as it was written down, under the fingerprint of that, with the limits of its document: two
/// that were written alike have one fingerprint.
pub proof fn law_attempts_are_handed_out_as_written(
    one: CompiledAttempt,
    two: CompiledAttempt,
    written: Seq<char>,
    policy: RunPolicySnapshot,
    other: RunPolicySnapshot,
)
    requires
        is_sealed(one, written, policy),
        is_sealed(two, written, other),
    ensures
        one.spec_json@ == written,
        one.spec_hash@ == schedule::fingerprint(encode_utf8(written)),
        one.spec_hash@ == two.spec_hash@,
        one.policy == policy,
        two.policy == other,
{
}

/// What an attempt is compiled to is sealed with what its own document gives, and an attempt that cannot be compiled
/// is refused with the reason.
pub proof fn law_compiled_attempts_are_sealed<
    P: FnOnce(&str) -> Result<MirrorDocument, String>,
    W: FnOnce(&ProcessRunSpec) -> Result<String, String>,
>(
    source: DispatchSource,
    node: Seq<char>,
    mirror_root: Seq<char>,
    publication_root: Option<Seq<char>>,
    parse: P,
    write: W,
    compiled: CompiledAttempt,
)
    requires
        attempt_outcome(source, node, mirror_root, publication_root, parse, write, Ok(compiled)),
    ensures
        compiled.spec_hash@ == schedule::fingerprint(encode_utf8(compiled.spec_json@)),
        exists|document: MirrorDocument|
            #[trigger] reads_as(parse, source.config_toml@, Ok(document)) && compiled.policy.max_attempts
                == document.run.max_attempts,
        source.attempt_no > 0,
        ids::is_name(source.mirror_name@),
{
    let parsed = choose|parsed: Result<MirrorDocument, String>|
        #[trigger] reads_as(parse, source.config_toml@, parsed) && match compile_fault(
            source,
            node,
            publication_root,
            parsed,
        ) {
            Some(message) => false,
            None => exists|spec: ProcessRunSpec, written: Result<String, String>|
                is_attempt_spec(spec, parsed->Ok_0, source, node, mirror_root, publication_root)
                    && #[trigger] call_ensures(write, (&spec,), written) && match written {
                    Ok(value) => is_sealed(compiled, value@, policy_of(parsed->Ok_0)),
                    Err(message) => false,
                },
        };
    assert(reads_as(parse, source.config_toml@, Ok(parsed->Ok_0)));
}

} // verus!
