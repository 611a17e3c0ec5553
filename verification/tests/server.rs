use lmt::agent::control::{accept, cancel, pending_event, Acceptance, Cancellation, Found, Offer, Upload};
use lmt::agent::config::{Config, Execution, Node, ProcessPolicy, Runner, Server, Storage};
use lmt::agent::reconcile::{Reconciliation, Stage};
use lmt::agent::spool::key;
use lmt::domain::bundle::canonicalize_bundle;
use lmt::domain::config::{
    canonicalize_file, seal_mirror, BundleFile, CanonicalBundle, CanonicalMirror, ConfigBundle, ConfigError,
    MirrorConfig, MirrorDocument, ProcessRunner, PublicationConfig, PublicationMode, RunPolicy, SyncConfig,
};
use lmt::domain::ids::MirrorName;
use lmt::domain::schedule::{RunTrigger, ScheduleConfig};
use lmt::domain::state::{AttemptEvent, AttemptState, ProcessRunSpec, RunState};
use lmt::protocol::{
    AgentAction, BackupManifest, BindingReplaceRequest, Capacity, DoctorCheckStatus, EventRequest, ManualRunRequest,
    NodeStatusView, PollRequest, PublicationHealth, StatusResponse,
};
use lmt::server::access::{attempt_auth, bearer, header_u64, operator};
use lmt::server::backup::{
    backup_recency, checkpoint_complete, checksum, list, paths, validate_id, verify, DatabaseFacts,
};
use lmt::server::failure::Failure;
use lmt::server::maintenance::{logs_with_files, plan_log_maintenance};
use lmt::server::metrics::{append_publication_metrics, metrics, online, prometheus_label, AppMetrics};
use lmt::server::observation::{counter_delta, PublicationObservation};
use lmt::server::operations::{
    apply_bundle, cancel_run, event, issue_credential, issue_credential_of, manual, node, node_credentials,
    replace_binding, validate,
};
use lmt::server::requests::{
    action, admit_poll, next_action_for_agent, require_operator, supports_execution_identity, ServerState,
};
use lmt::server::restoring;
use lmt::server::restoring::{Restoration, RestoreNames};
use lmt::server::run_logs::{
    begin_append, begin_read, check_chunk, finish_append, finish_read, locate, log_path, must_wait, overlap, tail_of,
    unreadable, AppendStart, LogPart, LogQuery,
};
use lmt::server::services::{
    apply_attempt_event, create_manual_run, evaluate_schedules, next_action, request_cancellation,
};
use lmt::server::settings::{
    has_inline_credentials, load_operator_token, parse_run_log_policy, parse_span, reload_operator_token, scheduler_wait_ms, scheduler_wakes,
    RunLogPolicy, RunLogsConfig, Span,
};
use lmt::server::status::{
    backup_doctor_check, diagnose, doctor_check, doctor_head, doctor_operational_checks, filesystem_check,
    operational_status, BackupState,
};
use lmt::server::views::{
    attempt_view, backup_manifest_timestamp_seconds, can_write, can_write_run, config_error, credential_view,
    mirror_view, node_view, parse_time, plan_view, run_view, timestamp,
};
use lmt::store::dispatch::PollAction;
use lmt::store::names::{parse_run_state, run_state_str};
use lmt::store::tables::{Store, StoreError};
use std::collections::BTreeMap;

fn text(table: &toml::Table, key: &str) -> Option<String> {
    table.get(key).and_then(|value| value.as_str()).map(str::to_owned)
}

fn texts(table: &toml::Table, key: &str) -> Vec<String> {
    match table.get(key).and_then(|value| value.as_array()) {
        Some(values) => values.iter().map(|value| value.as_str().expect("text").to_owned()).collect(),
        None => Vec::new(),
    }
}

fn document(source: &str) -> Result<MirrorDocument, String> {
    let table: toml::Table = source.parse().map_err(|error: toml::de::Error| error.to_string())?;
    let mirror = table.get("mirror").and_then(|value| value.as_table()).ok_or("missing mirror")?;
    let sync = table.get("sync").and_then(|value| value.as_table()).ok_or("missing sync")?;
    let name = MirrorName::new(&text(mirror, "name").ok_or("missing name")?).map_err(|error| error.message())?;
    let schedule = table.get("schedule").and_then(|value| value.as_table()).map(|schedule| {
        match text(schedule, "interval") {
            Some(interval) => ScheduleConfig::Interval { interval },
            None => ScheduleConfig::Cron {
                cron: text(schedule, "cron").expect("cron"),
                timezone: text(schedule, "timezone").expect("timezone"),
            },
        }
    });
    let mut run = RunPolicy::default();
    if let Some(policy) = table.get("run").and_then(|value| value.as_table()) {
        if let Some(value) = policy.get("timeout_seconds").and_then(|value| value.as_integer()) {
            run.timeout_seconds = value as u64;
        }
        if let Some(value) = policy.get("max_attempts").and_then(|value| value.as_integer()) {
            run.max_attempts = value as u32;
        }
        if let Some(value) = policy.get("retry_delay_seconds").and_then(|value| value.as_integer()) {
            run.retry_delay_seconds = value as u64;
        }
    }
    Ok(MirrorDocument {
        mirror: MirrorConfig {
            name,
            enabled: mirror.get("enabled").and_then(|value| value.as_bool()).unwrap_or(true),
            description: text(mirror, "description").unwrap_or_default(),
            target: text(mirror, "target").ok_or("missing target")?,
        },
        schedule,
        sync: if text(sync, "type").as_deref() == Some("rsync") {
            SyncConfig::Rsync { source: text(sync, "source").ok_or("missing source")?, args: texts(sync, "args") }
        } else {
            SyncConfig::Command {
                program: text(sync, "program").ok_or("missing program")?,
                args: texts(sync, "args"),
                cwd: text(sync, "cwd"),
            }
        },
        publication: table.get("publication").and_then(|value| value.as_table()).map(|publication| {
            PublicationConfig {
                mode: if text(publication, "mode").as_deref() == Some("atomic") {
                    PublicationMode::Atomic
                } else {
                    PublicationMode::Direct
                },
            }
        }),
        runner: ProcessRunner::default(),
        run,
    })
}

fn canonical_form(document: &MirrorDocument) -> String {
    let mut mirror = toml::Table::new();
    mirror.insert("name".into(), document.mirror.name.as_str().into());
    mirror.insert("target".into(), document.mirror.target.as_str().into());
    mirror.insert("enabled".into(), document.mirror.enabled.into());
    let mut table = toml::Table::new();
    table.insert("mirror".into(), mirror.into());
    if let Some(schedule) = &document.schedule {
        let mut form = toml::Table::new();
        match schedule {
            ScheduleConfig::Interval { interval } => {
                form.insert("interval".into(), interval.as_str().into());
            }
            ScheduleConfig::Cron { cron, timezone } => {
                form.insert("cron".into(), cron.as_str().into());
                form.insert("timezone".into(), timezone.as_str().into());
            }
        }
        table.insert("schedule".into(), form.into());
    }
    if let Some(publication) = document.publication {
        let mut form = toml::Table::new();
        let mode = if publication.mode == PublicationMode::Atomic { "atomic" } else { "direct" };
        form.insert("mode".into(), mode.into());
        table.insert("publication".into(), form.into());
    }
    let mut run = toml::Table::new();
    run.insert("max_attempts".into(), i64::from(document.run.max_attempts).into());
    run.insert("retry_delay_seconds".into(), (document.run.retry_delay_seconds as i64).into());
    table.insert("run".into(), run.into());
    let mut sync = toml::Table::new();
    match &document.sync {
        SyncConfig::Command { program, .. } => {
            sync.insert("type".into(), "command".into());
            sync.insert("program".into(), program.as_str().into());
        }
        SyncConfig::Rsync { source, .. } => {
            sync.insert("type".into(), "rsync".into());
            sync.insert("source".into(), source.as_str().into());
        }
    }
    table.insert("sync".into(), sync.into());
    table.to_string()
}

fn mirror_of(file: &BundleFile) -> Result<CanonicalMirror, ConfigError> {
    let (node, document) = canonicalize_file(file, document(&file.contents))?;
    let written = canonical_form(&document);
    seal_mirror(file, node, document, Ok(written))
}

fn canonicalize(bundle: &ConfigBundle) -> Result<CanonicalBundle, Vec<ConfigError>> {
    canonicalize_bundle(bundle.files.iter().map(mirror_of).collect())
}


fn one(contents: &str) -> CanonicalBundle {
    canonicalize(&ConfigBundle {
        files: vec![BundleFile { path: "nodes/node-a/mirrors/demo.toml".into(), contents: contents.into() }],
    })
    .expect("bundle")
}

const PLAIN: &str = "[mirror]\nname='demo'\ntarget='demo'\n[sync]\ntype='command'\nprogram='/bin/true'\n";

fn write(spec: &ProcessRunSpec) -> Result<String, String> {
    Ok(format!("{spec:?}"))
}

fn seeded(contents: &str) -> Store {
    let mut store = Store::new();
    store.upsert_credential("node-a", "secret", 1);
    store.apply(&one(contents), 0, "test", 2).expect("apply");
    store
}

fn poll_node(store: &mut Store, now: i64) -> Option<PollAction> {
    next_action(store, "node-a", "/tmp/mirrors", None, now, document, write).expect("poll")
}

fn ended(sequence: u64, at: Option<i64>) -> AttemptEvent {
    AttemptEvent {
        event_sequence: sequence,
        state: AttemptState::Succeeded,
        agent_instance_id: "instance".into(),
        accepted_at_ms: None,
        started_at_ms: None,
        finished_at_ms: at,
        exit_code: Some(0),
        failure_kind: None,
        failure_message: None,
    }
}

fn state() -> ServerState {
    ServerState { operator_token: "operator".into(), metrics: AppMetrics::default(), observations: vec![] }
}

/// The files of a log directory.
type Logs = BTreeMap<String, Vec<u8>>;

fn append(
    store: &mut Store,
    logs: &mut Logs,
    run: &str,
    offset: u64,
    body: &[u8],
    complete: bool,
    now: i64,
) -> Result<u64, Failure> {
    let id = match begin_append(store, run, 1)? {
        AppendStart::Expired(stored) => return Ok(stored),
        AppendStart::Append(id) => id,
    };
    let log = logs.entry(log_path("/logs", &id, 1)).or_default();
    let stored = log.len() as u64;
    let held = overlap(stored, offset, body.len())?;
    let tail = tail_of(&log[offset as usize..offset as usize + held], body)?.to_vec();
    log.extend_from_slice(&tail);
    finish_append(store, &id, 1, stored, tail.len(), complete, now)
}

fn poll_message() -> PollRequest {
    PollRequest {
        protocol_version: "v1alpha1".into(),
        agent_version: "test-agent".into(),
        agent_instance_id: "installation-a".into(),
        agent_boot_id: "boot-a".into(),
        poll_sequence: 1,
        running: vec![],
        capacity: Capacity { mirror_root_free_bytes: Some(1_000), active_runs: 0, max_concurrent_runs: 1 },
        mirror_root: "/srv/mirrors".into(),
        capabilities: vec![],
        publication_root: None,
        publication_health: None,
    }
}

fn health() -> PublicationHealth {
    PublicationHealth {
        commits_succeeded_total: 0,
        commits_failed_total: 0,
        visibility_to_durability_milliseconds_total: 0,
        visibility_to_durability_samples_total: 0,
        preflight_rejections_total: 0,
        gc_failures_total: 0,
        publication_root_free_bytes: Some(1_000),
        gc_backlog_generations: 0,
        admission_block_reason: None,
        fenced_records: 0,
        recovery_records: 0,
        degraded: false,
    }
}

fn direct_poll_action() -> PollAction {
    PollAction::StartAttempt {
        run_id: "01M30000000000000000000003".into(),
        attempt_no: 1,
        mirror_name: "example".into(),
        spec_hash: "sha256:m3-direct-fixture".into(),
        spec_json: "{}".into(),
    }
}

fn direct_spec() -> ProcessRunSpec {
    ProcessRunSpec {
        runner: "process".into(),
        program: "/usr/bin/rsync".into(),
        args: vec![
            "-aH".into(),
            "--delete".into(),
            "rsync://example.invalid/archive/".into(),
            "/srv/mirrors/example".into(),
        ],
        cwd: None,
        timeout_seconds: 21_600,
        mirror_root: "/srv/mirrors".into(),
        target_dir: "/srv/mirrors/example".into(),
        publication: None,
    }
}

#[test]
fn start_attempt_identity_is_capability_gated_for_m3_agents() {
    let legacy = action(direct_poll_action(), false, |_| Ok(direct_spec())).expect("legacy action");
    match &legacy.actions[0] {
        AgentAction::StartAttempt { run_id, execution_identity, spec, .. } => {
            assert_eq!(run_id, "01M30000000000000000000003");
            assert_eq!(*execution_identity, None);
            assert_eq!(*spec, direct_spec());
        }
        other => panic!("unexpected {other:?}"),
    }
    let capable = action(direct_poll_action(), true, |_| Ok(direct_spec())).expect("action");
    match &capable.actions[0] {
        AgentAction::StartAttempt { execution_identity, spec, .. } => {
            assert_eq!(execution_identity.as_ref().expect("identity").mirror, "example");
            assert_eq!(spec.publication, None);
        }
        other => panic!("unexpected {other:?}"),
    }
    assert!(action(direct_poll_action(), true, |_| Err("damaged".into())).is_err());
    let mut request = poll_message();
    assert!(!supports_execution_identity(&request));
    request.capabilities.push("execution_identity_v1".into());
    assert!(supports_execution_identity(&request));
    let cancel =
        PollAction::CancelAttempt { run_id: "r".into(), attempt_no: 2, spec_hash: "hash".into() };
    let response = action(cancel, true, |_| panic!("nothing to read")).expect("cancel");
    assert_eq!(
        response.actions[0],
        AgentAction::CancelAttempt { run_id: "r".into(), attempt: 2, spec_hash: "hash".into() }
    );
}

#[test]
fn success_event_and_duplicate_log_survive_reopen() {
    let mut store = seeded(PLAIN);
    let run = create_manual_run(&mut store, "demo", "request", 3, document).expect("run");
    assert!(poll_node(&mut store, 4).is_some());
    let mut logs = Logs::new();
    assert_eq!(append(&mut store, &mut logs, &run.id, 0, b"[stdout] hello\n", false, 5).expect("append"), 15);
    assert_eq!(append(&mut store, &mut logs, &run.id, 0, b"[stdout] hello\n", true, 5).expect("retry"), 15);
    apply_attempt_event(&mut store, &run.id, 1, &ended(3, Some(3)), 5, document).expect("event");
    assert_eq!(store.get_run(&run.id).expect("run").state, RunState::Succeeded);
    assert_eq!(logs[&format!("/logs/{}/1.log", run.id)], b"[stdout] hello\n");
    let ahead = append(&mut store, &mut logs, &run.id, 99, b"x", false, 6).expect_err("gap");
    assert_eq!((ahead.status, ahead.code), (409, "log_offset_ahead"));
    let differs = append(&mut store, &mut logs, &run.id, 0, b"[stderr]", false, 6).expect_err("conflict");
    assert_eq!((differs.status, differs.code), (409, "log_content_conflict"));
    let unknown = append(&mut store, &mut logs, "no id", 0, b"x", false, 6).expect_err("identifier");
    assert_eq!((unknown.status, unknown.code), (400, "invalid_run_id"));
    assert_eq!(check_chunk(1_048_576), Ok(()));
    assert_eq!(check_chunk(1_048_577).expect_err("large").status, 413);
}

#[test]
fn fake_server_clock_drives_durable_scheduled_run_and_interval_rearm() {
    let mut store = Store::new();
    let bundle = one(
        "[mirror]\nname='demo'\ntarget='demo'\n[schedule]\ninterval='1m'\n[sync]\ntype='command'\nprogram='/bin/true'\n[run]\nmax_attempts=2\nretry_delay_seconds=5\n",
    );
    store.apply(&bundle, 0, "test", 0).expect("apply");
    let metrics = evaluate_schedules(&mut store, 60_000, document).expect("tick");
    assert_eq!((metrics.evaluated, metrics.interval_due), (1, 1));
    assert_eq!(store.get_mirror("demo").expect("mirror").scheduled_due_since_ms, Some(60_000));
    let run_id = match poll_node(&mut store, 60_000).expect("scheduled action") {
        PollAction::StartAttempt { run_id, .. } => run_id,
        PollAction::CancelAttempt { .. } => panic!("unexpected cancellation"),
    };
    let run = store.get_run(&run_id).expect("run");
    assert_eq!(run.trigger, RunTrigger::Scheduled);
    assert_eq!(run.scheduled_for_at_ms, Some(60_000));
    assert_eq!(run.max_attempts, 2);
    assert_eq!(store.list_runs().len(), 1);
    apply_attempt_event(&mut store, &run_id, 1, &ended(1, Some(70_000)), 70_000, document).expect("terminal");
    assert_eq!(store.get_mirror("demo").expect("mirror").next_due_at_ms, Some(130_000));
}

#[test]
fn duplicate_terminal_events_and_cancellations_do_not_duplicate_semantic_metrics() {
    let contents = "[mirror]\nname='demo'\ntarget='demo'\n[sync]\ntype='command'\nprogram='/bin/false'\n[run]\nmax_attempts=2\nretry_delay_seconds=5\n";
    let mut store = seeded(contents);
    let run = create_manual_run(&mut store, "demo", "event-metrics", 1, document).expect("run");
    assert!(poll_node(&mut store, 2).is_some());
    let mut server = state();
    let request = EventRequest {
        event_sequence: 1,
        state: AttemptState::Failed,
        agent_instance_id: "instance".into(),
        accepted_at: None,
        started_at: None,
        finished_at: None,
        exit_code: Some(1),
        failure_kind: None,
        failure_message: None,
    };
    for _ in 0..2 {
        event(&mut store, &mut server, Some("Bearer secret"), &run.id, 1, &request, 3, document).expect("event");
    }
    assert_eq!(server.metrics.events, 2);
    assert_eq!(server.metrics.attempts_failed, 1);
    assert_eq!(server.metrics.retries_scheduled, 1);
    let denied = event(&mut store, &mut server, Some("Bearer other"), &run.id, 1, &request, 3, document);
    assert_eq!(denied.expect_err("credential").status, 401);

    let mut cancel_store = Store::new();
    cancel_store.apply(&one(contents), 0, "test", 0).expect("apply");
    let cancellable =
        create_manual_run(&mut cancel_store, "demo", "cancel-metrics", 1, document).expect("run");
    for _ in 0..2 {
        cancel_run(&mut cancel_store, &mut server.metrics, &cancellable.id, 5, document).expect("cancel");
    }
    assert_eq!(server.metrics.cancellations_immediate, 1);
    assert_eq!(server.metrics.cancellations_dispatched, 0);
}

#[test]
fn clean_install_credential_issue_then_authenticated_poll_establishes_binding() {
    let mut store = Store::new();
    let mut server = state();
    assert_eq!(require_operator(&mut server, Some("Bearer operator")), Ok(()));
    let invalid = issue_credential(&mut store, "!invalid", None, 10).expect_err("invalid Node name");
    assert_eq!((invalid.status, invalid.code), (400, "invalid_node_name"));
    assert!(store.list_nodes().is_empty());
    let (credential, token) =
        issue_credential(&mut store, "node-a", Some("first install"), 10).expect("issue first credential");
    assert_eq!(credential.label.as_deref(), Some("first install"));
    let before = store.list_nodes().pop().expect("bootstrapped node");
    assert_eq!(before.name, "node-a");
    assert_eq!(before.last_seen_at_ms, None);
    assert_eq!(before.bound_agent_id, None);
    assert!(store.list_mirrors().is_empty());

    let request = poll_message();
    let unauthenticated =
        admit_poll(&mut store, &mut server, None, &request, 10).expect_err("unauthenticated poll");
    assert_eq!(unauthenticated.status, 401);
    assert_eq!(store.list_nodes()[0].bound_agent_id, None);
    let authorization = format!("Bearer {token}");
    let name = admit_poll(&mut store, &mut server, Some(&authorization), &request, 10).expect("first poll");
    assert_eq!(name, "node-a");
    assert_eq!(
        next_action_for_agent(&mut store, &name, &request, 10, document, write).expect("action"),
        None
    );
    let after = store.list_nodes().pop().expect("bound node");
    assert_eq!(after.bound_agent_id.as_deref(), Some("installation-a"));
    assert_eq!(after.agent_instance_id.as_deref(), Some("installation-a"));
    assert_eq!(after.agent_boot_id.as_deref(), Some("boot-a"));
    assert_eq!(after.last_seen_at_ms, Some(10));
    assert!(store.list_mirrors().is_empty());
}

#[test]
fn issued_credentials_are_secret_safe_revocable_and_operator_reload_is_fail_safe() {
    let mut store = Store::new();
    assert!(store.import_legacy_credential("node-a", "legacy", 1));
    let (credential, token) = issue_credential(&mut store, "node-a", Some("rotation"), 10).expect("issue");
    assert!(token.starts_with("lmt_a_"));
    assert_eq!(token.len(), 70);
    let (_, second) = issue_credential(&mut store, "node-a", None, 10).expect("issue");
    assert_ne!(token, second);
    let listed = node_credentials(&store, "node-a").expect("list");
    assert!(listed.iter().all(|listed| listed.id != token));
    assert!(store.authenticate_credential(&token).is_some());
    let revoked = store.revoke_credential("node-a", &credential.id, 20).expect("revoke");
    assert!(credential_view(revoked).revoked_at.is_some());
    assert!(store.authenticate_credential(&token).is_none());
    assert_eq!(node_credentials(&store, "node-b").expect_err("unknown").code, "node_not_found");

    let mut working = "operator".to_owned();
    assert!(reload_operator_token(&mut working, "\n").is_err());
    assert_eq!(working, "operator", "failed reload replaced the working credential");
    reload_operator_token(&mut working, "new-operator\n").expect("reload");
    assert_eq!(working, "new-operator");
    let secret = vec![0xab; 32];
    let (made, token) = issue_credential_of(&mut store, "node-b", None, Some(&secret), "id", 30).expect("issue");
    assert_eq!(made.id, "id");
    assert_eq!(token, format!("lmt_a_{}", "ab".repeat(32)));
    let known = store.credentials.len();
    let taken = issue_credential_of(&mut store, "node-b", None, Some(&secret), "id", 31).expect_err("taken");
    assert_eq!((taken.status, taken.code), (500, "internal"));
    let silent = issue_credential_of(&mut store, "node-b", None, None, "other", 31).expect_err("no secret");
    assert_eq!((silent.status, silent.code), (500, "entropy_unavailable"));
    assert_eq!(silent.message, "token generation failed");
    for secret in [None, Some(&secret)] {
        let refused = issue_credential_of(&mut store, "Node B", None, secret, "other", 31).expect_err("name");
        assert_eq!((refused.status, refused.code), (400, "invalid_node_name"));
    }
    assert_eq!(issue_credential(&mut store, "Node B", None, 31).expect_err("name").code, "invalid_node_name");
    assert_eq!(store.credentials.len(), known);
    assert_eq!(load_operator_token(Some(" file \n"), &None), Ok("file".into()));
    assert_eq!(load_operator_token(None, &Some("inline".into())), Ok("inline".into()));
    assert!(load_operator_token(None, &None).is_err());
    assert!(load_operator_token(Some(" "), &None).is_err());
}

#[test]
fn log_retention_is_safe_crash_recoverable_and_lock_registry_is_bounded() {
    let mut store = seeded(PLAIN);
    let mut logs = Logs::new();
    let mut terminal = Vec::new();
    for (index, (updated_at, bytes)) in
        [(10, b"1111".as_slice()), (20, b"22222"), (90, b"333333"), (95, b"4444444")].into_iter().enumerate()
    {
        let run = create_manual_run(&mut store, "demo", &format!("retention-{index}"), updated_at - 2, document)
            .expect("run");
        assert!(poll_node(&mut store, updated_at - 1).is_some());
        append(&mut store, &mut logs, &run.id, 0, bytes, true, updated_at).expect("complete log");
        apply_attempt_event(&mut store, &run.id, 1, &ended(1, Some(updated_at)), updated_at, document)
            .expect("terminal");
        terminal.push(run.id);
    }
    let active = create_manual_run(&mut store, "demo", "retention-active", 96, document).expect("active");
    assert!(poll_node(&mut store, 97).is_some());
    append(&mut store, &mut logs, &active.id, 0, b"active", false, 98).expect("active log");

    let age = RunLogPolicy {
        retention: Some(Span { seconds: 0, nanos: 50_000_000 }),
        max_total_bytes: None,
        maintenance_interval: Span { seconds: 1, nanos: 0 },
    };
    let plan = plan_log_maintenance(&store.log_retention_entries(), Some(age), 100);
    assert_eq!(plan.candidates.len(), 2);
    assert!(plan.candidates.iter().all(|candidate| candidate.run_id != active.id));
    for candidate in &plan.candidates {
        assert!(store.mark_log_expired(&candidate.run_id, candidate.attempt, 100));
    }
    let filed = logs_with_files(store.log_retention_entries());
    assert_eq!(filed.iter().map(|entry| entry.run_id.as_str()).collect::<Vec<_>>(), [
        terminal[2].as_str(),
        terminal[3].as_str(),
        active.id.as_str(),
    ]);
    assert_eq!(store.operational_counts().stored_log_bytes, 19);
    assert_eq!(store.list_runs().len(), 5);
    assert_eq!(append(&mut store, &mut logs, &terminal[0], 0, b"1111", true, 100).expect("late"), 4);
    assert!(store.log_metadata(&terminal[0], 1).expect("expired metadata").expired_at_ms.is_some());
    let query = LogQuery { attempt: None, offset: 0, limit: None, wait: None };
    let read = begin_read(&store, &terminal[0], &query).expect("read");
    let expired = locate(&store, &read).expect_err("expired log");
    assert_eq!((expired.status, expired.code), (410, "log_expired"));

    let size = RunLogPolicy { retention: None, max_total_bytes: Some(14), ..age };
    let plan = plan_log_maintenance(&store.log_retention_entries(), Some(size), 100);
    assert_eq!(plan.candidates.len(), 1);
    assert_eq!(plan.candidates[0].run_id, terminal[2]);
    assert!(store.mark_log_expired(&terminal[2], 1, 100));
    assert_eq!(store.operational_counts().stored_log_bytes, 13);
    assert!(store.mark_log_expired(&terminal[3], 1, 101));
    assert!(plan_log_maintenance(&store.log_retention_entries(), None, 100).candidates.is_empty());

    let status = status_of(&store, &[]);
    let checks =
        doctor_operational_checks(&status, 100, Span { seconds: 90, nanos: 0 }, 1, &BackupState::Unconfigured, false);
    assert!(checks
        .iter()
        .any(|check| check.id == "logs.files" && check.status == DoctorCheckStatus::Critical));
}

fn status_of(store: &Store, observations: &[(String, PublicationObservation)]) -> StatusResponse {
    let observations: Vec<(String, PublicationObservation)> = observations
        .iter()
        .map(|(node, seen)| {
            let copy = PublicationObservation {
                agent_instance_id: seen.agent_instance_id.clone(),
                agent_boot_id: seen.agent_boot_id.clone(),
                atomic_capable: seen.atomic_capable,
                last: seen.last,
                cumulative: seen.cumulative,
            };
            (node.clone(), copy)
        })
        .collect();
    operational_status(
        "test",
        4,
        store.current_revision(),
        store.operational_counts(),
        store.mirror_operational_status(),
        store.list_nodes(),
        &observations,
        1_000,
        Span { seconds: 90, nanos: 0 },
    )
}

#[test]
fn metrics_and_public_status_are_bounded_and_sanitized_with_large_history() {
    let mut store = seeded(
        "[mirror]\nname='demo'\ntarget='demo'\n[schedule]\ninterval='1m'\n[sync]\ntype='rsync'\nsource='https://secret@example.invalid/private'\n",
    );
    evaluate_schedules(&mut store, 70_000, document).expect("tick");
    let body = metrics(
        store.operational_counts(),
        AppMetrics::default(),
        &vec![],
        &store.mirror_operational_status(),
        &store.list_nodes(),
        71_000,
        Span { seconds: 90, nanos: 0 },
    );
    assert!(body.contains("lmt_runs_pending 0"));
    assert!(body.contains("lmt_mirrors_due 1"));
    assert!(body.contains("lmt_run_logs_stored_bytes 0"));
    let status = status_of(&store, &[]);
    let shown = format!("{status:?}");
    for forbidden in ["secret@example", "source", "token"] {
        assert!(!shown.contains(forbidden), "status leaked {forbidden}: {shown}");
    }
    assert_eq!((status.mirrors.len(), status.nodes.len()), (1, 1));
    assert_eq!(status.mirrors_due, 1);
    assert!(!status.nodes[0].online);
    assert_eq!(prometheus_label("a\"b\\c\n"), "a\\\"b\\\\c\\n");
    assert!(online(Some(1_000), 91_000, Span { seconds: 90, nanos: 0 }));
    assert!(!online(Some(1_000), 91_001, Span { seconds: 90, nanos: 0 }));
}

#[test]
fn publication_observations_are_idempotent_boot_aware_and_visible_to_doctor() {
    let mut first = health();
    first.commits_succeeded_total = 5;
    let mut observation = PublicationObservation::new("agent-a".into(), "boot-a".into(), true, first);
    observation.update("agent-a", "boot-a", true, first);
    assert_eq!(observation.cumulative.commits_succeeded_total, 5);
    let mut advanced = first;
    advanced.commits_succeeded_total = 8;
    observation.update("agent-a", "boot-a", true, advanced);
    assert_eq!(observation.cumulative.commits_succeeded_total, 8);
    let mut restarted = health();
    restarted.commits_succeeded_total = 2;
    restarted.recovery_records = 1;
    restarted.degraded = true;
    observation.update("agent-a", "boot-b", true, restarted);
    assert_eq!(observation.cumulative.commits_succeeded_total, 10);
    assert_eq!(counter_delta(8, 5, false), 3);
    assert_eq!(counter_delta(2, 5, false), 2);
    assert_eq!(counter_delta(8, 5, true), 8);

    let cumulative = observation.cumulative;
    let mut body = String::new();
    append_publication_metrics(&mut body, &vec![("node-a".into(), observation)]);
    assert!(body.contains("lmt_agents_atomic_publication_capable 1"));
    assert!(body.contains("lmt_publication_commits_total{outcome=\"succeeded\"} 10"));
    assert!(body.contains("lmt_agent_publication_recovery_records{node=\"node-a\"} 1"));

    let status = StatusResponse {
        version: "test".into(),
        schema_version: 4,
        config_revision: 0,
        runs_pending: 0,
        runs_running: 0,
        mirrors_due: 0,
        run_logs_stored_bytes: 0,
        mirrors: Vec::new(),
        nodes: vec![NodeStatusView {
            name: "node-a".into(),
            online: true,
            bound: true,
            last_seen_at_ms: Some(1),
            active_runs: 0,
            max_concurrent_runs: 1,
            mirror_root_free_bytes: Some(1),
            atomic_publication_capable: Some(true),
            publication_health: Some(cumulative),
        }],
    };
    let checks =
        doctor_operational_checks(&status, 1, Span { seconds: 90, nanos: 0 }, 0, &BackupState::Missing, true);
    assert!(checks
        .iter()
        .any(|check| check.id == "publication.health" && check.status == DoctorCheckStatus::Critical));
    assert!(!diagnose(checks).healthy);
    assert!(diagnose(doctor_head(&status, true)).healthy);
    assert!(!diagnose(doctor_head(&status, false)).healthy);
    assert!(diagnose(vec![doctor_check("a", DoctorCheckStatus::Healthy, "fine")]).healthy);
    assert_eq!(backup_doctor_check(&BackupState::Unconfigured), None);
    assert!(backup_doctor_check(&BackupState::Missing).is_some());
    assert_ne!(filesystem_check("f", "/d", Err("no".into())).status, DoctorCheckStatus::Healthy);
}

#[test]
fn verification_detects_corruption_and_listing_ignores_temporary_files() {
    let id = "01K00000000000000000000000";
    let bytes = b"database";
    let (sha256, size) = checksum(bytes);
    assert_eq!(sha256, "3549b0028b75d981cdda2e573e9cb49dedc200185876df299f912b79f69dabd8");
    let manifest = |id: &str| BackupManifest {
        id: id.into(),
        created_at: "2026-09-03T00:00:00Z".into(),
        lmt_version: "0.1.0".into(),
        schema_version: 4,
        config_revision: 1,
        database_size: size,
        sha256: sha256.clone(),
    };
    let facts = |bytes: &[u8]| {
        let (sha256, size) = checksum(bytes);
        DatabaseFacts { sha256, size, integrity: "ok".into(), schema_version: 4, config_revision: 1 }
    };
    assert_eq!(verify(id, &manifest(id), &facts(bytes)), Ok(()));
    assert_eq!(
        verify(id, &manifest(id), &facts(b"databasf")),
        Err("backup_invalid: checksum or size mismatch".into())
    );
    let torn = DatabaseFacts { integrity: "row missing".into(), ..facts(bytes) };
    assert_eq!(
        verify(id, &manifest(id), &torn),
        Err("backup_invalid: SQLite integrity check failed: row missing".into())
    );
    let other = DatabaseFacts { schema_version: 3, ..facts(bytes) };
    assert_eq!(verify(id, &manifest(id), &other), Err("backup_invalid: manifest metadata mismatch".into()));
    assert_eq!(
        verify(id, &manifest("01K00000000000000000000001"), &facts(bytes)),
        Err("backup_invalid: manifest ID mismatch".into())
    );
    assert_eq!(verify("../x", &manifest("../x"), &facts(bytes)), Err("backup_invalid: invalid backup ID".into()));
    assert!(validate_id("x/y").is_err());
    assert!(list(vec![]).is_empty());
    assert_eq!(list(vec![(manifest(id), false)]).len(), 0);
    assert_eq!(list(vec![(manifest(id), true)]).len(), 1);
    assert_eq!(paths("/b", id), (format!("/b/{id}.sqlite"), format!("/b/{id}.json")));
    assert_eq!(checkpoint_complete(0, 3, 3), Ok(()));
    assert_eq!(
        checkpoint_complete(1, 3, 2),
        Err("restore_requires_offline: current SQLite WAL checkpoint was incomplete (2/3, busy=1)".into())
    );
}

#[test]
fn backup_recency_is_reloaded_from_published_manifest_after_restart() {
    let manifest = |created_at: &str| BackupManifest {
        id: "01K00000000000000000000000".into(),
        created_at: created_at.into(),
        lmt_version: "0.1.0".into(),
        schema_version: 4,
        config_revision: 1,
        database_size: 0,
        sha256: String::new(),
    };
    let expected = backup_manifest_timestamp_seconds("2026-09-03T00:00:01Z").expect("manifest timestamp");
    assert_eq!(expected, 1_788_393_601);
    let manifests = vec![manifest("2026-09-02T00:00:00Z"), manifest("2026-09-03T00:00:01Z"), manifest("never")];
    assert_eq!(backup_recency(&manifests), Some(expected));
    assert_eq!(backup_recency(&vec![manifest("never")]), None);
}

#[test]
fn real_offline_restore_preserves_wal_rolls_back_failure_and_cannot_redeliver() {
    let restore = |had: bool, failing: &str| {
        let mut files = BTreeMap::new();
        if had {
            files.insert("/c/lmt.db".to_owned(), "old");
        }
        let names = RestoreNames::new("/c/lmt.db", "COPY", "KEEP", "FAIL").expect("names");
        files.insert(names.temporary.clone(), "new");
        let mut job = Restoration::begin(names, had);
        loop {
            let action = job.action();
            let event = match &action {
                restoring::Action::Finish(error) => return (files, error.clone()),
                other if !failing.is_empty() && format!("{other:?}").contains(failing) => {
                    restoring::Event::Failed("injected restore installation failure".to_owned())
                }
                restoring::Action::Rename { from, to } => {
                    let contents = files.remove(from).expect("source");
                    files.insert(to.clone(), contents);
                    restoring::Event::Done
                }
                restoring::Action::Remove(names) => {
                    for name in names {
                        files.remove(name);
                    }
                    restoring::Event::Done
                }
                restoring::Action::Sync => restoring::Event::Done,
                restoring::Action::Look(name) => restoring::Event::Found(files.contains_key(name)),
            };
            job = job.step(event);
        }
    };
    let (files, error) = restore(true, "");
    assert_eq!(error, None);
    assert_eq!(files["/c/lmt.db"], "new");
    assert_eq!(files["/c/lmt.pre-restore-KEEP"], "old");
    let (files, error) = restore(true, "from: \"/c/.lmt-restore-COPY.tmp\"");
    assert_eq!(error.as_deref(), Some("injected restore installation failure"));
    assert_eq!(files["/c/lmt.db"], "old");
    assert_eq!(files.len(), 1);
    let (files, error) = restore(false, "from: \"/c/.lmt-restore-COPY.tmp\"");
    assert!(error.is_some());
    assert!(files.is_empty());
    assert_eq!(
        RestoreNames::new("/", "a", "b", "c"),
        Err("database path has no parent".into())
    );
    assert!(restoring::acknowledged(false).is_err());
    assert_eq!(restoring::acknowledged(true), Ok(()));
    assert_eq!(restoring::sqlite_sidecars("/c/lmt.db").0, "/c/lmt.db-wal");

    let mut restored = seeded(PLAIN);
    let run = create_manual_run(&mut restored, "demo", "request", 3, document).expect("run");
    assert!(poll_node(&mut restored, 4).is_some());
    restored.normalize_restored_database(10);
    assert_eq!(restored.get_run(&run.id).expect("restored Run").state, RunState::Failed);
    assert!(restored
        .poll_action("node-a", i64::MAX, |_| panic!("restored stale work compiled"))
        .expect("poll after restore")
        .is_none());
}

#[test]
fn logs_are_read_part_by_part() {
    let mut store = seeded(PLAIN);
    let run = create_manual_run(&mut store, "demo", "request", 3, document).expect("run");
    assert!(poll_node(&mut store, 4).is_some());
    let mut query = LogQuery { attempt: None, offset: 0, limit: Some(4), wait: Some("1m".into()) };
    let read = begin_read(&store, &run.id, &query).expect("read");
    assert_eq!(read.attempt_no, 1);
    assert_eq!(read.wait, Span { seconds: 20, nanos: 0 });
    assert!(must_wait(&store, &read));
    let ages = LogQuery { attempt: None, offset: 0, limit: None, wait: Some("1000000000000s".into()) };
    assert_eq!(begin_read(&store, &run.id, &ages).expect("read").wait, Span { seconds: 20, nanos: 0 });
    assert_eq!(locate(&store, &read), Ok(LogPart::Nothing));
    assert_eq!(finish_read(0, LogPart::Nothing), (0, false));
    let mut logs = Logs::new();
    append(&mut store, &mut logs, &run.id, 0, b"123456", true, 5).expect("append");
    assert!(!must_wait(&store, &read));
    let part = locate(&store, &read).expect("part");
    assert_eq!(part, LogPart::Bytes { take: 4, stored_bytes: 6, complete: true });
    assert_eq!(finish_read(0, part), (4, false));
    query.offset = 4;
    let rest = locate(&store, &begin_read(&store, &run.id, &query).expect("read")).expect("part");
    assert_eq!(finish_read(4, rest), (6, true));
    for (limit, wait, code) in [(Some(0), None, "invalid_log_limit"), (None, Some("soon".to_owned()), "invalid_log_wait")]
    {
        let bad = LogQuery { attempt: Some(1), offset: 0, limit, wait };
        assert_eq!(begin_read(&store, &run.id, &bad).expect_err("query").code, code);
    }
    let missing = LogQuery { attempt: Some(9), offset: 0, limit: None, wait: None };
    assert_eq!(begin_read(&store, &run.id, &missing).expect_err("attempt").code, "attempt_not_found");
    assert_eq!(begin_read(&store, "nothing", &missing).expect_err("run").code, "run_not_found");
    assert_eq!(unreadable(true, "x").code, "log_missing");
    assert_eq!(unreadable(false, "x").code, "log_io_error");
}

#[test]
fn requests_are_let_in_by_their_tokens() {
    assert_eq!(bearer(Some("Bearer abc")).as_deref(), Some("abc"));
    assert_eq!(bearer(Some("Basic abc")), None);
    assert_eq!(operator(Some("Bearer operator"), "operator"), Ok(()));
    assert_eq!(operator(Some("Bearer other"), "operator").expect_err("token").status, 401);
    let mut server = state();
    assert!(require_operator(&mut server, None).is_err());
    assert_eq!(server.metrics.auth_failures, 1);
    let mut store = seeded(PLAIN);
    let run = create_manual_run(&mut store, "demo", "request", 3, document).expect("run");
    assert!(poll_node(&mut store, 4).is_some());
    assert_eq!(attempt_auth(&store, "node-a", &run.id, 1), Ok(()));
    assert!(attempt_auth(&store, "node-b", &run.id, 1).is_err());
    assert_eq!(header_u64(Some("12")), Ok(12));
    assert!(header_u64(Some("x")).is_err());
    assert!(header_u64(None).is_err());
}

#[test]
fn operators_change_the_configuration() {
    let mut store = Store::new();
    let applied = apply_bundle(&mut store, &one(PLAIN), 0, false, 10).expect("apply");
    assert_eq!(applied.base_revision, 1);
    let moved = canonicalize(&ConfigBundle {
        files: vec![BundleFile { path: "nodes/node-b/mirrors/demo.toml".into(), contents: PLAIN.into() }],
    })
    .expect("bundle");
    let refused = apply_bundle(&mut store, &moved, 1, false, 20).expect_err("move");
    assert_eq!((refused.status, refused.code), (409, "move_acknowledgement_required"));
    assert!(apply_bundle(&mut store, &moved, 1, true, 20).is_ok());
    let stale = apply_bundle(&mut store, &moved, 0, true, 30).expect_err("stale");
    assert_eq!(stale.status, 409);
    let valid = validate(canonicalize(&ConfigBundle {
        files: vec![BundleFile { path: "x.toml".into(), contents: PLAIN.into() }],
    }));
    assert!(!valid.valid);
    assert_eq!(valid.errors.len(), 1);
    assert!(validate(Ok(one(PLAIN))).valid);
    let error = config_error(&vec![ConfigError::EmptyProgram, ConfigError::InvalidTimeout]);
    assert_eq!((error.status, error.code), (400, "config_invalid"));
    assert!(error.message.contains("command program must not be empty"));
    let plan = plan_view(store.plan(&one(PLAIN)).expect("plan"));
    assert_eq!(plan.changes.len(), 1);
}

#[test]
fn manual_requests_and_bindings_are_checked() {
    let mut store = seeded(PLAIN);
    let request = |id: &str, trigger: RunTrigger| ManualRunRequest { request_id: id.into(), trigger };
    let run = manual(&mut store, "demo", &request("r-1", RunTrigger::Manual), 5, document).expect("run");
    assert!(manual(&mut store, "demo", &request("r-2", RunTrigger::Scheduled), 5, document).is_err());
    let busy = manual(&mut store, "demo", &request("r-3", RunTrigger::Manual), 5, document).expect_err("busy");
    assert_eq!(busy.status, 409);
    let none = manual(&mut store, "other", &request("r-4", RunTrigger::Manual), 5, document).expect_err("none");
    assert_eq!(none.status, 404);
    let cancelled = request_cancellation(&mut store, &run.id, 6, document).expect("cancel");
    assert_eq!(cancelled.run.state, RunState::Cancelled);
    assert_eq!(node(&store, "node-b").expect_err("node").code, "node_not_found");
    assert_eq!(node(&store, "node-a").expect("node").name, "node-a");
    let binding = BindingReplaceRequest { agent_id: "agent-b".into(), acknowledge_execution_risk: false };
    let replaced = replace_binding(&mut store, "node-a", &binding).expect("binding");
    assert_eq!(replaced.bound_agent_id.as_deref(), Some("agent-b"));
}

#[test]
fn records_are_shown_with_their_moments() {
    let mut store = seeded(PLAIN);
    let run = create_manual_run(&mut store, "demo", "request", 1_500, document).expect("run");
    assert!(poll_node(&mut store, 2_000).is_some());
    assert!(can_write_run(&run));
    assert_eq!(timestamp(1_500), "1970-01-01T00:00:01.5Z");
    assert!(can_write(0));
    assert!(!can_write(i64::MAX));
    assert_eq!(run_view(run.clone()).created_at, "1970-01-01T00:00:01.5Z");
    assert_eq!(attempt_view(store.list_attempts(&run.id).remove(0)).attempt_no, 1);
    assert_eq!(mirror_view(store.get_mirror("demo").expect("mirror")).name, "demo");
    let shown = node_view(store.list_nodes().remove(0), 5, Span { seconds: 90, nanos: 0 });
    assert!(!shown.online);
    assert_eq!(parse_time(Some("1970-01-01T00:00:01.5Z")), Ok(Some(1_500)));
    assert_eq!(parse_time(None), Ok(None));
    assert!(parse_time(Some("yesterday")).is_err());
}

#[test]
fn failures_tell_no_secrets_of_the_server() {
    let internal = Failure::of_store(StoreError::Database("disk /secret".into()));
    assert_eq!((internal.status, internal.message.as_str()), (500, "internal server error"));
    let conflict = Failure::of_store(StoreError::RevisionConflict { current: 7 });
    assert_eq!(conflict.status, 409);
    assert_eq!(Failure::of_store(StoreError::CredentialNotFound).code, "credential_not_found");
    let illegal = StoreError::IllegalTransition { from: AttemptState::Failed, to: AttemptState::Running };
    assert_eq!(Failure::of_store(illegal).code, "state_conflict");
}

#[test]
fn settings_are_read() {
    assert_eq!(parse_span("90s"), Ok(Span { seconds: 90, nanos: 0 }));
    assert_eq!(parse_span("1000000000000s"), Ok(Span { seconds: 1_000_000_000_000, nanos: 0 }));
    assert!(parse_span("soon").is_err());
    let config = |retention: Option<&str>, bytes: Option<u64>| RunLogsConfig {
        retention: retention.map(str::to_owned),
        max_total_bytes: bytes,
        maintenance_interval: "1h".into(),
    };
    let policy = parse_run_log_policy(&config(Some("30d"), None)).expect("policy").expect("some");
    assert_eq!(policy.retention, Some(Span { seconds: 2_592_000, nanos: 0 }));
    assert_eq!(policy.maintenance_interval, Span { seconds: 3_600, nanos: 0 });
    assert!(parse_run_log_policy(&config(Some("x"), None)).is_err());
    assert_eq!(parse_run_log_policy(&config(None, None)), Ok(None));
    assert_eq!(scheduler_wait_ms(None, 0), 30_000);
    assert_eq!(scheduler_wait_ms(Some(5_000), 0), 5_000);
    assert_eq!(scheduler_wait_ms(Some(0), 0), 30_000);
    assert!(scheduler_wakes(1, None, 0));
    assert!(scheduler_wakes(0, Some(0), 0));
    assert!(!scheduler_wakes(0, Some(1), 0));
    assert!(has_inline_credentials(1, &None));
    assert!(has_inline_credentials(0, &Some("token".into())));
    assert!(!has_inline_credentials(0, &None));
}

#[test]
fn run_state_round_trips_as_snake_case() {
    assert_eq!(run_state_str(RunState::Succeeded), "succeeded");
    assert_eq!(parse_run_state("succeeded"), Some(RunState::Succeeded));
}

#[test]
fn lost_start_response_followed_by_cancel_executes_nothing_and_retires_tombstone() {
    let now = "1970-01-01T00:00:00Z";
    let mut store = seeded(PLAIN);
    let mut server = state();
    let run = create_manual_run(&mut store, "demo", "request", 3, document).expect("run");
    let lost = poll_node(&mut store, 4).expect("start");
    assert_eq!(poll_node(&mut store, 5), Some(lost), "an unheard attempt comes again");
    cancel_run(&mut store, &mut server.metrics, &run.id, 6, document).expect("cancel");
    let (run_id, attempt_no, spec_hash) = match poll_node(&mut store, 7).expect("cancellation") {
        PollAction::CancelAttempt { run_id, attempt_no, spec_hash } => (run_id, attempt_no, spec_hash),
        other => panic!("not cancelled: {other:?}"),
    };
    let tombstone = match cancel(Found::Absent, &run_id, attempt_no, &spec_hash, now) {
        Cancellation::Tombstone(record) => record,
        other => panic!("no tombstone: {other:?}"),
    };
    let config = Config {
        node: Node { name: "node-a".into() },
        server: Server { url: "http://127.0.0.1:1".into(), token_file: "/token".into() },
        storage: Storage {
            mirror_root: "/srv/mirrors".into(),
            spool_dir: "/spool".into(),
            publication_root: None,
            publication_max_private_generations: None,
            publication_reserve_bytes: None,
        },
        execution: Execution { max_concurrent_runs: 4 },
        runner: Runner { process: ProcessPolicy { enabled: true } },
        logging: None,
    };
    let late = Offer { run_id: run_id.clone(), attempt: attempt_no, spec_hash: spec_hash.clone(), spec: direct_spec() };
    assert_eq!(accept(&config, Some(&spec_hash), false, 0, late, now), Acceptance::Known);

    let request = pending_event(&tombstone, "instance").expect("event");
    event(&mut store, &mut server, Some("Bearer secret"), &run_id, attempt_no, &request, 8, document).expect("event");
    assert_eq!(store.get_run(&run_id).expect("run").state, RunState::Cancelled);
    let attempts = store.list_attempts(&run_id);
    assert_eq!(attempts.len(), 1);
    assert_eq!(attempts[0].state, AttemptState::Cancelled);
    assert_eq!(poll_node(&mut store, 9), None);
    let disk = tombstone.clone();
    let told = Reconciliation::begin(tombstone).reported(Some(disk)).measured(0);
    let upload = Upload { offset: 0, length: 0, complete: true };
    assert_eq!(told.stage, Stage::Sending(upload));
    let disk = told.record.clone();
    assert_eq!(told.sent(upload, Some(disk), Some("0")).stage, Stage::Ended(true));
}

#[test]
fn attempts_have_names_and_candidates_of_their_own() {
    assert_ne!(key("run-1", 1), key("run", 11));
    assert_ne!(key("run-1", 1), key("run-1", 2));
    let mut store = seeded(
        "[mirror]\nname='demo'\ntarget='demo'\n[sync]\ntype='command'\nprogram='/bin/false'\n[publication]\nmode='atomic'\n[run]\nmax_attempts=2\nretry_delay_seconds=0\n",
    );
    create_manual_run(&mut store, "demo", "request", 3, document).expect("run");
    let offered = |store: &mut Store, now: i64| {
        match next_action(store, "node-a", "/tmp/mirrors", Some("/tmp/private"), now, document, write).expect("poll") {
            Some(PollAction::StartAttempt { run_id, attempt_no, spec_json, .. }) => (run_id, attempt_no, spec_json),
            other => panic!("no attempt: {other:?}"),
        }
    };
    let (run_id, attempt_no, first) = offered(&mut store, 4);
    assert!(first.contains(&format!("/tmp/private/demo/attempts/{run_id}-1/root")), "{first}");
    let failed = AttemptEvent { state: AttemptState::Failed, exit_code: Some(1), ..ended(1, Some(5)) };
    apply_attempt_event(&mut store, &run_id, attempt_no, &failed, 5, document).expect("event");
    let (again, attempt_no, second) = offered(&mut store, 60_000);
    assert_eq!((again.as_str(), attempt_no), (run_id.as_str(), 2));
    assert!(second.contains(&format!("/tmp/private/demo/attempts/{run_id}-2/root")), "{second}");
}

#[test]
fn refused_work_leaves_the_tables_alone() {
    let mut store = Store::new();
    let two = canonicalize(&ConfigBundle {
        files: ["demo", "other"]
            .map(|name| BundleFile {
                path: format!("nodes/node-a/mirrors/{name}.toml"),
                contents: format!(
                    "[mirror]\nname='{name}'\ntarget='{name}'\n[sync]\ntype='command'\nprogram='/bin/true'\n"
                ),
            })
            .into(),
    })
    .expect("bundle");
    store.apply(&two, 0, "test", 1).expect("apply");
    let run = create_manual_run(&mut store, "demo", "request", 2, document).expect("run");
    assert_eq!(create_manual_run(&mut store, "other", "request", 3, document), Err(StoreError::RequestConflict));
    assert_eq!(
        Failure::of_store(StoreError::RequestConflict).message,
        "request id was already used for another mirror"
    );
    let unwritten =
        next_action(&mut store, "node-a", "/m", None, 4, document, |_| Err("too long".to_owned()));
    assert_eq!(unwritten, Err(StoreError::Serialization("too long".into())));
    let unread = next_action(&mut store, "node-a", "/m", None, 4, |_| Err("damaged".to_owned()), write);
    assert!(matches!(unread, Err(StoreError::InvalidConfig(_))));
    assert_eq!(store.get_run(&run.id).expect("run").state, RunState::Pending);
    assert!(store.list_attempts(&run.id).is_empty());
    assert_eq!(StoreError::Worker("gone".into()).message(), "database worker unavailable: gone");
}
