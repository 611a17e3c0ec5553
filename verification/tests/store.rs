use lmt::domain::bundle::canonicalize_bundle;
use lmt::domain::config::{
    canonicalize_file, seal_mirror, BundleFile, CanonicalBundle, CanonicalMirror, ConfigBundle, ConfigError,
    MirrorConfig, MirrorDocument, ProcessRunner, PublicationConfig, PublicationMode, RunPolicy, SyncConfig,
};
use lmt::domain::ids::MirrorName;
use lmt::domain::schedule::{
    decide_retry, evaluate_schedule_due, RetryContext, RunTrigger, ScheduleConfig, ScheduleRuntime,
};
use lmt::domain::state::{AttemptEvent, AttemptState, RunState};
use lmt::store::credentials::token_hash;
use lmt::store::dispatch::{CompiledAttempt, PollAction, RunPolicySnapshot};
use lmt::store::events::{AttemptEventApplyResult, TerminalDecision, TerminalDecisionSource};
use lmt::store::migration::plan_migrations;
use lmt::store::names::{
    attempt_state_str, failure_kind_str, parse_attempt_state, parse_run_state, parse_run_trigger, run_state_str,
    run_trigger_str,
};
use lmt::store::nodes::NodeObservation;
use lmt::store::planning::{ChangeKind, PublicationChange};
use lmt::store::queries::RunQuery;
use lmt::store::tables::{
    AttemptRecord, AttemptRow, GenerationRow, MirrorRow, NodeRecord, NodeRow, RevisionRow, RunRecord, RunRow,
    ScheduleRow, Store, StoreError,
};

fn text(table: &toml::Table, key: &str) -> Option<String> {
    table.get(key).and_then(|value| value.as_str()).map(str::to_owned)
}

fn texts(table: &toml::Table, key: &str) -> Vec<String> {
    match table.get(key).and_then(|value| value.as_array()) {
        Some(values) => values.iter().map(|value| value.as_str().expect("text").to_owned()).collect(),
        None => Vec::new(),
    }
}

fn document(source: &str) -> Result<MirrorDocument, String> {
    let table: toml::Table = source.parse().map_err(|error: toml::de::Error| error.to_string())?;
    let mirror = table.get("mirror").and_then(|value| value.as_table()).ok_or("missing mirror")?;
    let sync = table.get("sync").and_then(|value| value.as_table()).ok_or("missing sync")?;
    let name = MirrorName::new(&text(mirror, "name").ok_or("missing name")?).map_err(|error| error.message())?;
    let schedule = table.get("schedule").and_then(|value| value.as_table()).map(|schedule| {
        match text(schedule, "interval") {
            Some(interval) => ScheduleConfig::Interval { interval },
            None => ScheduleConfig::Cron {
                cron: text(schedule, "cron").expect("cron"),
                timezone: text(schedule, "timezone").expect("timezone"),
            },
        }
    });
    let mut run = RunPolicy::default();
    if let Some(policy) = table.get("run").and_then(|value| value.as_table()) {
        if let Some(value) = policy.get("timeout_seconds").and_then(|value| value.as_integer()) {
            run.timeout_seconds = value as u64;
        }
        if let Some(value) = policy.get("max_attempts").and_then(|value| value.as_integer()) {
            run.max_attempts = value as u32;
        }
        if let Some(value) = policy.get("retry_delay_seconds").and_then(|value| value.as_integer()) {
            run.retry_delay_seconds = value as u64;
        }
    }
    Ok(MirrorDocument {
        mirror: MirrorConfig {
            name,
            enabled: mirror.get("enabled").and_then(|value| value.as_bool()).unwrap_or(true),
            description: text(mirror, "description").unwrap_or_default(),
            target: text(mirror, "target").ok_or("missing target")?,
        },
        schedule,
        sync: if text(sync, "type").as_deref() == Some("rsync") {
            SyncConfig::Rsync { source: text(sync, "source").ok_or("missing source")?, args: texts(sync, "args") }
        } else {
            SyncConfig::Command {
                program: text(sync, "program").ok_or("missing program")?,
                args: texts(sync, "args"),
                cwd: text(sync, "cwd"),
            }
        },
        publication: table.get("publication").and_then(|value| value.as_table()).map(|publication| {
            PublicationConfig {
                mode: if text(publication, "mode").as_deref() == Some("atomic") {
                    PublicationMode::Atomic
                } else {
                    PublicationMode::Direct
                },
            }
        }),
        runner: ProcessRunner::default(),
        run,
    })
}

fn canonical_form(document: &MirrorDocument) -> String {
    let mut mirror = toml::Table::new();
    mirror.insert("name".into(), document.mirror.name.as_str().into());
    mirror.insert("target".into(), document.mirror.target.as_str().into());
    mirror.insert("enabled".into(), document.mirror.enabled.into());
    let mut table = toml::Table::new();
    table.insert("mirror".into(), mirror.into());
    if let Some(schedule) = &document.schedule {
        let mut form = toml::Table::new();
        match schedule {
            ScheduleConfig::Interval { interval } => {
                form.insert("interval".into(), interval.as_str().into());
            }
            ScheduleConfig::Cron { cron, timezone } => {
                form.insert("cron".into(), cron.as_str().into());
                form.insert("timezone".into(), timezone.as_str().into());
            }
        }
        table.insert("schedule".into(), form.into());
    }
    if let Some(publication) = document.publication {
        let mut form = toml::Table::new();
        let mode = if publication.mode == PublicationMode::Atomic { "atomic" } else { "direct" };
        form.insert("mode".into(), mode.into());
        table.insert("publication".into(), form.into());
    }
    let mut run = toml::Table::new();
    run.insert("max_attempts".into(), i64::from(document.run.max_attempts).into());
    run.insert("retry_delay_seconds".into(), (document.run.retry_delay_seconds as i64).into());
    table.insert("run".into(), run.into());
    let mut sync = toml::Table::new();
    match &document.sync {
        SyncConfig::Command { program, .. } => sync.insert("program".into(), program.as_str().into()),
        SyncConfig::Rsync { source, .. } => sync.insert("source".into(), source.as_str().into()),
    };
    table.insert("sync".into(), sync.into());
    table.to_string()
}

fn mirror_of(file: &BundleFile) -> Result<CanonicalMirror, ConfigError> {
    let (node, document) = canonicalize_file(file, document(&file.contents))?;
    let written = canonical_form(&document);
    seal_mirror(file, node, document, Ok(written))
}

fn canonicalize(bundle: &ConfigBundle) -> Result<CanonicalBundle, Vec<ConfigError>> {
    canonicalize_bundle(bundle.files.iter().map(mirror_of).collect())
}


fn one(contents: String) -> CanonicalBundle {
    canonicalize(&ConfigBundle {
        files: vec![BundleFile { path: "nodes/node-a/mirrors/demo.toml".into(), contents }],
    })
    .expect("valid")
}

fn bundle(program: &str) -> CanonicalBundle {
    one(format!("[mirror]\nname='demo'\ntarget='demo'\n[sync]\ntype='command'\nprogram='{program}'\n"))
}

fn scheduled_bundle(program: &str, interval: &str, max_attempts: u32) -> CanonicalBundle {
    one(format!(
        "[mirror]\nname='demo'\ntarget='demo'\n[schedule]\ninterval='{interval}'\n[sync]\ntype='command'\nprogram='{program}'\n[run]\nmax_attempts={max_attempts}\nretry_delay_seconds=5\n"
    ))
}

fn cron_bundle(program: &str) -> CanonicalBundle {
    one(format!(
        "[mirror]\nname='demo'\ntarget='demo'\n[schedule]\ncron='* * * * *'\ntimezone='UTC'\n[sync]\ntype='command'\nprogram='{program}'\n"
    ))
}

fn empty() -> CanonicalBundle {
    canonicalize_bundle(vec![]).expect("empty")
}

fn apply(store: &mut Store, bundle: &CanonicalBundle, base: u64, now: i64) {
    store.apply(bundle, base, "test", now).expect("apply");
    assert!(store.consistent());
}

fn poll(store: &mut Store) -> PollAction {
    poll_at(store, 20)
}

fn poll_at(store: &mut Store, now: i64) -> PollAction {
    let action = store
        .poll_action("node-a", now, |_| {
            Ok(CompiledAttempt {
                spec_json: "{}".into(),
                spec_hash: "sha256:test".into(),
                policy: RunPolicySnapshot { max_attempts: 3, retry_delay_ms: 5_000 },
            })
        })
        .expect("poll")
        .expect("action");
    assert!(store.consistent());
    action
}

fn poll_optional(store: &mut Store, now: i64) -> Option<PollAction> {
    store.poll_action("node-a", now, |_| panic!("no dispatch expected")).expect("poll")
}

fn start_fields(action: &PollAction) -> (&str, u32, &str) {
    match action {
        PollAction::StartAttempt { run_id, attempt_no, spec_hash, .. } => (run_id, *attempt_no, spec_hash),
        PollAction::CancelAttempt { .. } => panic!("expected StartAttempt"),
    }
}

fn policy(config: &str) -> Result<RunPolicySnapshot, StoreError> {
    let document = document(config).map_err(StoreError::InvalidConfig)?;
    Ok(RunPolicySnapshot {
        max_attempts: document.run.max_attempts,
        retry_delay_ms: document.run.retry_delay_seconds * 1_000,
    })
}

fn decide(source: TerminalDecisionSource, now: i64) -> Result<TerminalDecision, StoreError> {
    Ok(TerminalDecision {
        retry: decide_retry(RetryContext {
            outcome: source.outcome,
            attempt_no: source.attempt_no,
            max_attempts: source.max_attempts,
            retry_delay_seconds: source.retry_delay_ms / 1_000,
            cancel_requested: source.cancel_requested,
            mirror_eligible: source.mirror_eligible,
            owner_unchanged: source.owner_unchanged,
            server_now_ms: now,
        }),
        interval_next_due_at_ms: None,
    })
}

fn manual(store: &mut Store, request: &str, now: i64) -> RunRecord {
    store.create_manual_run("demo", request, now, policy).expect("run")
}

fn tick(store: &mut Store, now: i64) -> usize {
    let evaluated = store
        .evaluate_due_schedules(now, |source| {
            let document = document(&source.config_toml).map_err(StoreError::InvalidConfig)?;
            let schedule = document.schedule.expect("schedule");
            let due = evaluate_schedule_due(&schedule, source.runtime, now, source.has_active_run)
                .map_err(StoreError::InvalidConfig)?;
            Ok((due.runtime, ()))
        })
        .expect("tick");
    assert!(store.consistent());
    evaluated.len()
}

fn terminal_event(state: AttemptState, sequence: u64) -> AttemptEvent {
    AttemptEvent {
        event_sequence: sequence,
        state,
        agent_instance_id: "agent-1".into(),
        accepted_at_ms: Some(1),
        started_at_ms: Some(2),
        finished_at_ms: Some(3),
        exit_code: if state == AttemptState::Succeeded { Some(0) } else { Some(1) },
        failure_kind: None,
        failure_message: None,
    }
}

fn end(store: &mut Store, run: &str, attempt: u32, state: AttemptState, sequence: u64, now: i64) {
    store.apply_event(run, attempt, &terminal_event(state, sequence), now, decide).expect("terminal");
    assert!(store.consistent());
}

fn observation(agent: &str, boot: &str, active_runs: u32, now: i64) -> NodeObservation {
    NodeObservation {
        node: "node-a".into(),
        agent_version: "test".into(),
        agent_instance_id: agent.into(),
        agent_boot_id: boot.into(),
        active_runs,
        max_concurrent_runs: 1,
        mirror_root_free_bytes: None,
        mirror_root: "/tmp/mirrors".into(),
        observed_at_ms: now,
    }
}

fn run_row(id: &str, mirror: &str, trigger: RunTrigger, state: RunState, max_attempts: u32, attempts: u32) -> RunRow {
    RunRow {
        record: RunRecord {
            id: id.into(),
            mirror_name: mirror.into(),
            mirror_generation: 1,
            owner_node: "node-a".into(),
            trigger,
            state,
            created_at_ms: 1,
            started_at_ms: None,
            finished_at_ms: None,
            final_exit_code: None,
            failure_kind: None,
            failure_message: None,
            max_attempts,
            retry_delay_ms: 0,
            scheduled_for_at_ms: None,
            retry_due_at_ms: Some(5_000),
            cancel_requested_at_ms: None,
        },
        attempt_count: attempts,
        manual_request_id: None,
    }
}

#[test]
fn offline_restore_normalizes_execution_without_erasing_schedule_state() {
    let mut store = Store::new();
    store.revisions.push(RevisionRow {
        revision: 1,
        bundle_hash: "h".into(),
        applied_at_ms: 1,
        actor: "test".into(),
        summary: vec![],
    });
    store.nodes.push(NodeRow {
        record: NodeRecord {
            name: "node-a".into(),
            agent_version: None,
            agent_instance_id: Some("instance".into()),
            bound_agent_id: None,
            agent_boot_id: Some("boot".into()),
            last_seen_at_ms: None,
            active_runs: 2,
            mirror_root_free_bytes: None,
            max_concurrent_runs: 1,
        },
        registered_at_ms: 1,
        mirror_root: None,
    });
    for name in ["undispatched", "active"] {
        store.mirrors.push(MirrorRow {
            name: name.into(),
            managed: true,
            enabled: true,
            owner_node: "node-a".into(),
            current_generation: 1,
            removed_at_ms: None,
        });
        store.generations.push(GenerationRow {
            mirror_name: name.into(),
            generation: 1,
            config_revision: 1,
            owner_node: "node-a".into(),
            config_hash: "h".into(),
            config_toml: "x".into(),
            publication: PublicationMode::Direct,
            created_at_ms: 1,
        });
    }
    store.schedules.push(ScheduleRow {
        mirror_name: "active".into(),
        schedule_hash: None,
        runtime: ScheduleRuntime {
            next_due_at_ms: Some(9000),
            last_evaluated_at_ms: Some(8000),
            catch_up_pending: true,
            catch_up_since_ms: Some(7000),
        },
    });
    store.runs.push(run_row("run-undispatched", "undispatched", RunTrigger::Manual, RunState::Pending, 1, 0));
    store.runs.push(run_row("run-active", "active", RunTrigger::Scheduled, RunState::Running, 2, 1));
    store.attempts.push(AttemptRow {
        record: AttemptRecord {
            run_id: "run-active".into(),
            attempt_no: 1,
            state: AttemptState::Running,
            spec_hash: "spec".into(),
            spec_json: "{}".into(),
            created_at_ms: 2,
            accepted_at_ms: None,
            started_at_ms: None,
            finished_at_ms: None,
            exit_code: None,
            failure_kind: None,
            failure_message: None,
            last_event_sequence: 0,
        },
        agent_instance_id: None,
        dispatch_count: 1,
        last_dispatch_at_ms: None,
    });
    assert!(store.consistent());

    store.normalize_restored_database(10_000);
    assert!(store.consistent());
    let pending = store.get_run("run-undispatched").expect("undispatched");
    assert_eq!(pending.state, RunState::Cancelled);
    assert_eq!(pending.retry_due_at_ms, None);
    assert!(pending.failure_message.expect("message").contains("restore"));
    let active = store.get_run("run-active").expect("active Run");
    assert_eq!(active.state, RunState::Failed);
    assert_eq!(active.failure_kind.as_deref(), Some("interrupted"));
    assert_eq!(store.list_attempts("run-active")[0].state, AttemptState::Interrupted);
    let node = store.list_nodes().pop().expect("Node");
    assert_eq!((node.active_runs, node.agent_instance_id, node.agent_boot_id), (0, None, None));
    assert_eq!(store.get_mirror("active").expect("mirror").next_due_at_ms, Some(9000));
}

#[test]
fn future_schema_version_is_refused() {
    let versions = vec![1, 2, 3, 4];
    assert_eq!(plan_migrations(99, &versions), Err(StoreError::FutureSchema { found: 99, supported: 4 }));
    assert_eq!(plan_migrations(2, &versions), Ok(vec![3, 4]));
    assert_eq!(plan_migrations(4, &versions), Ok(vec![]));
}

#[test]
fn config_apply_is_atomic_and_semantic_noop_has_no_generation() {
    let mut store = Store::new();
    let first = bundle("/bin/true");
    apply(&mut store, &first, 0, 10);
    let plan = store.plan(&first).expect("plan");
    assert!(plan.changes.is_empty());
    let changed = bundle("/bin/false");
    let plan = store.plan(&changed).expect("plan");
    assert_eq!(plan.changes[0].to_generation, Some(2));
    assert!(matches!(store.apply(&changed, 0, "stale", 20), Err(StoreError::RevisionConflict { current: 1 })));
}

#[test]
fn schedule_state_is_coalesced_and_preserved_by_unrelated_updates() {
    let mut store = Store::new();
    apply(&mut store, &scheduled_bundle("/bin/true", "1h", 3), 0, 1_000);
    let mirror = store.get_mirror("demo").expect("mirror");
    assert_eq!(mirror.next_due_at_ms, Some(3_601_000));
    assert_eq!(store.earliest_wakeup(), Some(3_601_000));
    assert_eq!(tick(&mut store, 10_000_000), 1);
    let due = store.get_mirror("demo").expect("mirror");
    assert_eq!(due.scheduled_due_since_ms, Some(3_601_000));
    assert_eq!(due.next_due_at_ms, None);

    apply(&mut store, &scheduled_bundle("/bin/false", "60m", 3), 1, 20_000_000);
    let preserved = store.get_mirror("demo").expect("mirror");
    assert_eq!(preserved.scheduled_due_since_ms, Some(3_601_000));
    assert_eq!(preserved.next_due_at_ms, None);
    let action = poll_at(&mut store, 20_000_001);
    let run = store.get_run(start_fields(&action).0).expect("scheduled run");
    assert_eq!(run.mirror_generation, 2, "due intent used a stale generation");
    assert_eq!(run.scheduled_for_at_ms, Some(3_601_000));
}

#[test]
fn cron_misses_skip_while_busy_then_coalesce_offline_and_wait_at_capacity() {
    let mut store = Store::new();
    apply(&mut store, &cron_bundle("/bin/true"), 0, 0);
    let active = manual(&mut store, "active", 10);
    tick(&mut store, 600_000);
    let skipped = store.get_mirror("demo").expect("mirror");
    assert_eq!(skipped.scheduled_due_since_ms, None);
    assert_eq!(skipped.next_due_at_ms, Some(660_000));
    store.request_cancellation(&active.id, 610_000, |_| Ok(None)).expect("clear active");

    for now in [1_200_000, 1_800_000] {
        tick(&mut store, now);
    }
    assert_eq!(store.get_mirror("demo").expect("mirror").scheduled_due_since_ms, Some(660_000));
    store.upsert_credential("node-a", "secret", 1_800_001);
    store.observe_node(observation("instance", "boot", 1, 1_800_001)).expect("full");
    assert!(poll_optional(&mut store, 1_800_002).is_none());
    assert!(store.list_runs().iter().all(|run| run.id == active.id));
    assert_eq!(store.get_mirror("demo").expect("mirror").scheduled_due_since_ms, Some(660_000));
}

#[test]
fn due_marker_materializes_one_scheduled_run_and_interval_rearms_on_terminal() {
    let mut store = Store::new();
    apply(&mut store, &scheduled_bundle("/bin/true", "1h", 3), 0, 0);
    tick(&mut store, 3_600_000);
    let due = store.get_mirror("demo").expect("mirror");
    assert_eq!(due.next_due_at_ms, None);
    assert_eq!(due.scheduled_due_since_ms, Some(3_600_000));
    assert!(store.list_runs().is_empty());

    let action = poll_at(&mut store, 3_600_100);
    let (run_id, attempt_no, _) = start_fields(&action);
    assert_eq!(attempt_no, 1);
    let run = store.get_run(run_id).expect("run");
    assert_eq!(run.trigger, RunTrigger::Scheduled);
    assert_eq!(run.scheduled_for_at_ms, Some(3_600_000));
    assert_eq!(run.max_attempts, 3);
    assert_eq!(store.get_mirror("demo").expect("mirror").scheduled_due_since_ms, None);

    store
        .apply_event(&run.id, 1, &terminal_event(AttemptState::Succeeded, 3), 4_000_000, |source, now| {
            Ok(TerminalDecision { interval_next_due_at_ms: Some(now + 3_600_000), ..decide(source, now)? })
        })
        .expect("terminal");
    assert_eq!(store.get_mirror("demo").expect("mirror").next_due_at_ms, Some(7_600_000));
}

#[test]
fn manual_run_snapshots_generation_policy_and_clears_due_intent() {
    let mut store = Store::new();
    apply(&mut store, &scheduled_bundle("/bin/true", "1h", 3), 0, 0);
    store
        .evaluate_due_schedules(3_600_000, |source| {
            Ok((
                ScheduleRuntime {
                    next_due_at_ms: None,
                    last_evaluated_at_ms: Some(3_600_000),
                    catch_up_pending: true,
                    catch_up_since_ms: source.runtime.next_due_at_ms,
                },
                (),
            ))
        })
        .expect("due");
    let run = manual(&mut store, "request", 4_000_000);
    assert_eq!(run.max_attempts, 3);
    assert_eq!(run.retry_delay_ms, 5_000);
    assert_eq!(store.get_mirror("demo").expect("mirror").scheduled_due_since_ms, None);
}

#[test]
fn manual_request_and_active_run_are_idempotent() {
    let mut store = Store::new();
    apply(&mut store, &bundle("/bin/true"), 0, 10);
    let first = manual(&mut store, "request-1", 20);
    assert_eq!(manual(&mut store, "request-1", 30).id, first.id);
    assert!(matches!(
        store.create_manual_run("demo", "request-2", 40, policy),
        Err(StoreError::MirrorBusy { run_id }) if run_id == first.id
    ));
}

#[test]
fn bounded_run_keyset_pagination_has_no_duplicates_or_skips() {
    let mut store = Store::new();
    apply(&mut store, &bundle("/bin/true"), 0, 10);
    for index in 0..6_i64 {
        let run = manual(&mut store, &format!("page-{index}"), 100 + index / 2);
        poll_at(&mut store, 200 + index);
        end(&mut store, &run.id, 1, AttemptState::Succeeded, 1, 300 + index);
    }
    let query = |limit: u32, before: Option<String>| RunQuery { limit, before, ..RunQuery::default() };
    let expected: Vec<String> =
        store.query_runs(&query(6, None)).expect("all").into_iter().map(|run| run.id).collect();
    assert_eq!(expected.len(), 6);
    let mut actual = Vec::new();
    let mut before = None;
    loop {
        let page = store.query_runs(&query(2, before)).expect("page");
        if page.is_empty() {
            break;
        }
        before = page.last().map(|run| run.id.clone());
        actual.extend(page.into_iter().map(|run| run.id));
    }
    assert_eq!(actual, expected);
    assert!(matches!(store.query_runs(&query(501, None)), Err(StoreError::InvalidConfig(_))));
}

#[test]
fn duplicate_terminal_event_cannot_regress() {
    let mut store = Store::new();
    apply(&mut store, &bundle("/bin/true"), 0, 10);
    let run = manual(&mut store, "request", 20);
    poll(&mut store);
    let terminal = terminal_event(AttemptState::Succeeded, 3);
    assert_eq!(
        store.apply_event(&run.id, 1, &terminal, 30, decide).expect("event"),
        AttemptEventApplyResult { accepted_event_sequence: 3, newly_applied: true, retry_scheduled: false }
    );
    let late = AttemptEvent { event_sequence: 2, state: AttemptState::Running, ..terminal };
    assert_eq!(
        store.apply_event(&run.id, 1, &late, 40, decide).expect("duplicate"),
        AttemptEventApplyResult { accepted_event_sequence: 3, newly_applied: false, retry_scheduled: false }
    );
    assert_eq!(store.get_run(&run.id).expect("run").state, RunState::Succeeded);
    let regress = AttemptEvent { event_sequence: 4, ..late };
    assert!(matches!(
        store.apply_event(&run.id, 1, &regress, 50, decide),
        Err(StoreError::IllegalTransition { from: AttemptState::Succeeded, to: AttemptState::Running })
    ));
    assert!(matches!(
        store.apply_event(&run.id, 9, &regress, 50, decide),
        Err(StoreError::AttemptNotFound)
    ));
}

#[test]
fn retryable_outcomes_create_later_attempt_in_the_same_run() {
    for outcome in [AttemptState::Failed, AttemptState::TimedOut, AttemptState::Interrupted] {
        let mut store = Store::new();
        apply(&mut store, &scheduled_bundle("/bin/true", "1h", 3), 0, 0);
        let run = manual(&mut store, &format!("request-{outcome:?}"), 10);
        assert_eq!(start_fields(&poll(&mut store)).1, 1);
        end(&mut store, &run.id, 1, outcome, 3, 100);
        let waiting = store.get_run(&run.id).expect("run");
        assert_eq!(waiting.state, RunState::Running);
        assert_eq!(waiting.retry_due_at_ms, Some(5_100));
        assert!(poll_optional(&mut store, 5_099).is_none());
        assert_eq!(start_fields(&poll_at(&mut store, 5_100)).1, 2);
        end(&mut store, &run.id, 2, AttemptState::Succeeded, 3, 6_000);
        let complete = store.get_run(&run.id).expect("run");
        assert_eq!(complete.state, RunState::Succeeded);
        assert_eq!(complete.id, run.id);
        assert_eq!(store.list_attempts(&run.id).len(), 2);
    }
}

#[test]
fn retry_deadline_survives_restart_and_config_removal_suppresses_it() {
    let mut store = Store::new();
    apply(&mut store, &scheduled_bundle("/bin/true", "1h", 3), 0, 0);
    let run = manual(&mut store, "request", 10);
    poll(&mut store);
    end(&mut store, &run.id, 1, AttemptState::Failed, 3, 100);
    assert_eq!(store.earliest_wakeup(), Some(5_100));
    store.apply(&empty(), 1, "remove", 200).expect("remove");
    let final_run = store.get_run(&run.id).expect("run");
    assert_eq!(final_run.state, RunState::Failed);
    assert_eq!(final_run.retry_due_at_ms, None);
    assert!(poll_optional(&mut store, 6_000).is_none());
}

#[test]
fn rejected_attempt_never_retries() {
    let mut store = Store::new();
    apply(&mut store, &scheduled_bundle("/bin/true", "1h", 3), 0, 0);
    let run = manual(&mut store, "rejected", 10);
    poll(&mut store);
    end(&mut store, &run.id, 1, AttemptState::Rejected, 1, 100);
    let run = store.get_run(&run.id).expect("run");
    assert_eq!(run.state, RunState::Failed);
    assert_eq!(run.retry_due_at_ms, None);
}

#[test]
fn cancellation_is_idempotent_immediate_before_dispatch_and_during_retry_delay() {
    let mut store = Store::new();
    apply(&mut store, &scheduled_bundle("/bin/true", "1h", 3), 0, 0);
    let pending = manual(&mut store, "pending-cancel", 10);
    let cancelled = store.request_cancellation(&pending.id, 20, |_| Ok(None)).expect("cancel");
    assert_eq!(cancelled.run.state, RunState::Cancelled);
    assert_eq!(cancelled.run.cancel_requested_at_ms, Some(20));
    assert!(cancelled.newly_requested);
    let again = store.request_cancellation(&pending.id, 30, |_| Ok(None)).expect("duplicate");
    assert_eq!(again.run.cancel_requested_at_ms, Some(20));

    let retrying = manual(&mut store, "retry-cancel", 40);
    poll_at(&mut store, 50);
    end(&mut store, &retrying.id, 1, AttemptState::Failed, 3, 100);
    let cancelled = store.request_cancellation(&retrying.id, 200, |_| Ok(None)).expect("cancel retry");
    assert_eq!(cancelled.run.state, RunState::Cancelled);
    assert_eq!(cancelled.run.retry_due_at_ms, None);
    assert!(poll_optional(&mut store, 10_000).is_none());
}

#[test]
fn cancellation_of_terminal_runs_does_not_mutate_history() {
    for outcome in
        [AttemptState::Succeeded, AttemptState::Failed, AttemptState::TimedOut, AttemptState::Cancelled]
    {
        let mut store = Store::new();
        apply(&mut store, &bundle("/bin/true"), 0, 10);
        let run = manual(&mut store, &format!("terminal-{outcome:?}"), 20);
        poll_at(&mut store, 30);
        let event = terminal_event(outcome, 1);
        store
            .apply_event(&run.id, 1, &event, 40, |source, now| {
                Ok(TerminalDecision {
                    retry: decide_retry(RetryContext {
                        outcome: source.outcome,
                        attempt_no: source.attempt_no,
                        max_attempts: 1,
                        retry_delay_seconds: 0,
                        cancel_requested: source.cancel_requested,
                        mirror_eligible: source.mirror_eligible,
                        owner_unchanged: source.owner_unchanged,
                        server_now_ms: now,
                    }),
                    interval_next_due_at_ms: None,
                })
            })
            .expect("terminal event");
        let before = store.get_run(&run.id).expect("run");
        let result = store.request_cancellation(&run.id, 50, |_| Ok(Some(999))).expect("terminal cancellation");
        assert!(!result.newly_requested, "{outcome:?}");
        assert_eq!(result.run, before, "{outcome:?}");
        assert_eq!(store.get_run(&run.id), Some(before), "{outcome:?}");
    }
}

#[test]
fn dispatched_cancellation_has_priority_and_repeats_until_terminal() {
    let mut store = Store::new();
    apply(&mut store, &bundle("/bin/true"), 0, 10);
    let first_run = manual(&mut store, "first", 20);
    let start = poll_at(&mut store, 30);
    let (_, _, hash) = start_fields(&start);
    let cancelled = store.request_cancellation(&first_run.id, 40, |_| Ok(None)).expect("cancel");
    assert_eq!(cancelled.run.state, RunState::Pending);
    for now in [41, 42] {
        match poll_at(&mut store, now) {
            PollAction::CancelAttempt { run_id, attempt_no, spec_hash } => {
                assert_eq!(run_id, first_run.id);
                assert_eq!(attempt_no, 1);
                assert_eq!(spec_hash, hash);
            }
            PollAction::StartAttempt { .. } => panic!("cancel must outrank Start redelivery"),
        }
    }
    end(&mut store, &first_run.id, 1, AttemptState::Cancelled, 1, 50);
    assert_eq!(store.get_run(&first_run.id).expect("run").state, RunState::Cancelled);
    assert!(poll_optional(&mut store, 60).is_none());
}

#[test]
fn full_agent_blocks_new_start_but_not_cancellation() {
    let mut store = Store::new();
    apply(&mut store, &bundle("/bin/true"), 0, 10);
    store.upsert_credential("node-a", "secret", 10);
    store.observe_node(observation("instance", "boot", 1, 20)).expect("full");
    let run = manual(&mut store, "capacity", 30);
    assert!(poll_optional(&mut store, 40).is_none());
    store.observe_node(observation("instance", "boot", 0, 20)).expect("free");
    assert!(matches!(poll_at(&mut store, 50), PollAction::StartAttempt { .. }));
    store.observe_node(observation("instance", "boot", 1, 20)).expect("full again");
    store.request_cancellation(&run.id, 60, |_| Ok(None)).expect("cancel");
    assert!(matches!(poll_at(&mut store, 61), PollAction::CancelAttempt { .. }));
}

#[test]
fn durable_agent_binding_fences_conflicts_and_replacement_is_safety_gated() {
    let mut store = Store::new();
    apply(&mut store, &bundle("/bin/true"), 0, 10);
    store.upsert_credential("node-a", "secret", 10);
    store.observe_node(observation("installation-a", "boot-a", 0, 20)).expect("first bind");
    assert!(matches!(
        store.observe_node(observation("installation-b", "boot-b", 0, 30)),
        Err(StoreError::AgentBindingConflict { .. })
    ));
    let bound = store.list_nodes().pop().expect("node");
    assert_eq!(bound.bound_agent_id.as_deref(), Some("installation-a"));
    assert_eq!(bound.agent_boot_id.as_deref(), Some("boot-a"));
    assert_eq!(bound.last_seen_at_ms, Some(20));

    let run = manual(&mut store, "binding", 40);
    assert!(matches!(poll_at(&mut store, 50), PollAction::StartAttempt { .. }));
    assert!(matches!(
        store.replace_agent_binding("node-a", "installation-b", false),
        Err(StoreError::BindingReplacementUnsafe)
    ));
    store.replace_agent_binding("node-a", "installation-b", true).expect("acknowledged replacement");
    assert_eq!(store.list_nodes().pop().expect("node").bound_agent_id.as_deref(), Some("installation-b"));
    assert_eq!(store.get_run(&run.id).expect("run").state, RunState::Pending);
}

#[test]
fn credential_history_prevents_legacy_resurrection_and_usage_is_throttled() {
    let mut store = Store::new();
    assert!(store.import_legacy_credential("node-a", "legacy-secret", 10));
    assert_eq!(
        store.authenticate_credential("legacy-secret").expect("credential").credential_id,
        "bootstrap"
    );
    let revoked = store.revoke_credential("node-a", "bootstrap", 20).expect("revoke");
    assert_eq!(revoked.revoked_at_ms, Some(20));
    let again = store.revoke_credential("node-a", "bootstrap", 30).expect("idempotent");
    assert_eq!(again.revoked_at_ms, Some(20));
    assert!(!store.import_legacy_credential("node-a", "legacy-secret", 40));
    assert!(store.authenticate_credential("legacy-secret").is_none());

    let issued =
        store.issue_credential("node-a", "new-id", Some("rotation"), "new-secret", 50).expect("issue");
    assert_eq!(issued.label.as_deref(), Some("rotation"));
    let stored_hash = &store.credentials.last().expect("row").token_hash;
    assert_ne!(stored_hash, "new-secret");
    assert!(!stored_hash.contains("new-secret"));
    assert_eq!(*stored_hash, token_hash("new-secret"));
    assert_eq!(store.authenticate_node("new-secret").as_deref(), Some("node-a"));
    assert!(store.mark_credential_used("node-a", "new-id", 60));
    assert!(!store.mark_credential_used("node-a", "new-id", 61));
    assert!(store.mark_credential_used("node-a", "new-id", 60_060));
    assert_eq!(store.list_credentials("node-a")[0].last_used_at_ms, Some(60_060));
    assert!(matches!(
        store.revoke_credential("node-a", "other", 70),
        Err(StoreError::CredentialNotFound)
    ));
    assert!(store.consistent());
}

#[test]
fn removal_cancels_only_never_dispatched_pending_work() {
    let mut store = Store::new();
    apply(&mut store, &bundle("/bin/true"), 0, 10);
    let undispatched = manual(&mut store, "request-1", 20);
    store.apply(&empty(), 1, "remove", 30).expect("remove");
    assert_eq!(store.get_run(&undispatched.id).expect("run").state, RunState::Cancelled);

    let mut store = Store::new();
    apply(&mut store, &bundle("/bin/true"), 0, 10);
    let dispatched = manual(&mut store, "request-2", 20);
    let first = poll(&mut store);
    store.apply(&empty(), 1, "remove", 30).expect("remove");
    assert_eq!(store.get_run(&dispatched.id).expect("run").state, RunState::Pending);
    let redelivered = poll(&mut store);
    assert_eq!(start_fields(&redelivered).0, start_fields(&first).0);
    assert_eq!(start_fields(&redelivered).2, start_fields(&first).2);
}

#[test]
fn unknown_things_are_refused_by_name() {
    let mut store = Store::new();
    assert!(matches!(
        store.create_manual_run("demo", "r", 1, policy),
        Err(StoreError::MirrorNotFound)
    ));
    assert!(store.request_cancellation("none", 1, |_| Ok(None)).is_err());
    apply(&mut store, &bundle("/bin/true"), 0, 10);
    assert_eq!(
        store.create_manual_run("demo", "r", 20, |_| Err(StoreError::InvalidConfig("bad".into()))),
        Err(StoreError::InvalidConfig("bad".into()))
    );
    assert!(store.list_runs().is_empty());
    store.apply(&empty(), 1, "remove", 30).expect("remove");
    assert!(matches!(
        store.create_manual_run("demo", "r", 40, policy),
        Err(StoreError::MirrorIneligible)
    ));
    assert_eq!(store.get_run("none"), None);
    assert!(store.list_attempts("none").is_empty());
    assert!(!store.attempt_belongs_to_node("none", 1, "node-a"));
}

#[test]
fn plans_name_moves_and_publication_changes() {
    let mut store = Store::new();
    apply(&mut store, &bundle("/bin/true"), 0, 10);
    let plain = "[mirror]\nname='demo'\ntarget='demo'\n[sync]\ntype='command'\nprogram='/bin/true'\n";
    let moved = canonicalize(&ConfigBundle {
        files: vec![BundleFile { path: "nodes/node-b/mirrors/demo.toml".into(), contents: plain.into() }],
    })
    .expect("valid");
    let plan = store.plan(&moved).expect("plan");
    assert_eq!(plan.changes[0].kind, ChangeKind::Move);
    assert_eq!(plan.changes[0].from_node.as_deref(), Some("node-a"));
    assert_eq!(plan.changes[0].to_node.as_deref(), Some("node-b"));
    let atomic = one(format!("{plain}[publication]\nmode='atomic'\n"));
    let plan = store.plan(&atomic).expect("plan");
    assert_eq!(plan.changes[0].kind, ChangeKind::Update);
    assert_eq!(plan.changes[0].publication_change, Some(PublicationChange::DirectToAtomic));
    let plan = store.plan(&empty()).expect("plan");
    assert_eq!(plan.changes[0].kind, ChangeKind::Remove);
    assert_eq!(store.plan(&bundle("/bin/true")).expect("plan").base_revision, 1);
}

#[test]
fn logs_expire_when_their_attempts_have_ended() {
    let mut store = Store::new();
    apply(&mut store, &bundle("/bin/true"), 0, 10);
    let run = manual(&mut store, "request", 20);
    poll_at(&mut store, 30);
    store.update_log_metadata(&run.id, 1, "x/1.log", 5, false, 40).expect("log");
    assert!(!store.log_retention_entries()[0].eligible);
    assert!(!store.mark_log_expired(&run.id, 1, 50));
    end(&mut store, &run.id, 1, AttemptState::Succeeded, 3, 60);
    store.update_log_metadata(&run.id, 1, "x/1.log", 7, true, 70).expect("log");
    assert_eq!(store.operational_counts().stored_log_bytes, 7);
    assert!(store.log_retention_entries()[0].eligible);
    assert!(store.mark_log_expired(&run.id, 1, 80));
    assert!(!store.mark_log_expired(&run.id, 1, 90));
    assert_eq!(store.log_metadata(&run.id, 1).expect("log").expired_at_ms, Some(80));
    assert_eq!(store.operational_counts().stored_log_bytes, 0);
}

#[test]
fn statuses_and_counts_follow_the_runs() {
    let mut store = Store::new();
    apply(&mut store, &scheduled_bundle("/bin/true", "1h", 1), 0, 0);
    let run = manual(&mut store, "request", 20);
    assert_eq!(store.operational_counts().pending_runs, 1);
    let status = &store.mirror_operational_status()[0];
    assert_eq!(status.current_run_state, Some(RunState::Pending));
    poll_at(&mut store, 30);
    assert!(store.attempt_belongs_to_node(&run.id, 1, "node-a"));
    assert!(!store.attempt_belongs_to_node(&run.id, 1, "node-b"));
    end(&mut store, &run.id, 1, AttemptState::Succeeded, 3, 60);
    let status = &store.mirror_operational_status()[0];
    assert_eq!((status.current_run_state, status.last_run_state), (None, Some(RunState::Succeeded)));
    assert_eq!(store.list_mirrors().len(), 1);
}

#[test]
fn names_of_states_round_trip() {
    for state in [
        AttemptState::Queued,
        AttemptState::Accepted,
        AttemptState::Running,
        AttemptState::Succeeded,
        AttemptState::Failed,
        AttemptState::TimedOut,
        AttemptState::Cancelled,
        AttemptState::Interrupted,
        AttemptState::Rejected,
    ] {
        assert_eq!(parse_attempt_state(attempt_state_str(state)), Some(state));
    }
    for state in [
        RunState::Pending,
        RunState::Running,
        RunState::Succeeded,
        RunState::Failed,
        RunState::Cancelled,
        RunState::TimedOut,
    ] {
        assert_eq!(parse_run_state(run_state_str(state)), Some(state));
    }
    for trigger in [RunTrigger::Manual, RunTrigger::Scheduled] {
        assert_eq!(parse_run_trigger(run_trigger_str(trigger)), Some(trigger));
    }
    assert_eq!(attempt_state_str(AttemptState::TimedOut), "timed_out");
    assert_eq!(parse_attempt_state("other"), None);
    assert_eq!(failure_kind_str(lmt::domain::state::FailureKind::InvalidResult), "invalid_result");
}

#[test]
fn a_stored_mirror_with_a_bad_name_stops_a_configuration() {
    let mut store = Store::new();
    let wanted = bundle("/bin/true");
    apply(&mut store, &wanted, 0, 10);
    store.mirrors[0].name = "Not a name".into();
    let told = || StoreError::InvalidConfig("invalid mirror name: \"Not a name\"".into());
    store.generations[0].mirror_name = "Not a name".into();
    assert!(store.consistent());
    assert_eq!(store.plan(&wanted), Err(told()));
    assert_eq!(store.apply(&wanted, 1, "test", 20), Err(told()));
    assert_eq!(store.apply(&wanted, 7, "test", 20), Err(told()));
    assert_eq!(store.revisions.len(), 1);
}

#[test]
fn an_applied_bundle_is_the_next_revision_and_plans_nothing() {
    let mut store = Store::new();
    for (base, program) in ["/bin/true", "/bin/false", "/bin/false"].into_iter().enumerate() {
        let wanted = bundle(program);
        let plan = store.apply(&wanted, base as u64, "test", 10).expect("applied");
        assert_eq!(plan.base_revision, base as u64 + 1);
        let next = store.plan(&wanted).expect("plan");
        assert_eq!(next.base_revision, base as u64 + 1);
        assert!(next.changes.is_empty());
    }
    assert_eq!(store.generations.len(), 2);
}
