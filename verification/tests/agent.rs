use lmt::agent::config::{Config, Execution, Logging, LoggingFormat, Node, ProcessPolicy, Runner, Server, Storage};
use lmt::agent::config::{logging_format_default, logging_level_default};
use lmt::agent::control::{
    accept, acknowledge_event, acknowledge_log, cancel, owned, pending_event, plan_upload, poll_request, recover,
    safe_spec, spool_file, Acceptance, AgentIdentity, Cancellation, Found, Offer, Restart, SpoolFile, Upload,
};
use lmt::agent::executor::{
    finalize, frame_bytes, note_cancellation, preparation_failed, publication_failed, spawn_failed, start, Frame,
    Outcome,
};
use lmt::agent::filesystem::{
    decode_mount_path, listed_mount_point, places_match, preflight, prepare_candidate, read_mounts,
    validate_private_directory, validate_published_target, PublishedTarget, RootFacts,
};
use lmt::agent::reconcile::{Reconciliation, Stage};
use lmt::agent::spool::{
    key, log_path, retired_path, state_path, temporary_path, FileIdentity, PublicationPhase, SpoolRecord,
};
use lmt::domain::state::{AtomicPublicationSpec, AttemptState, FailureKind, ProcessRunSpec};
use lmt::path;

const NOW: &str = "2026-09-03T00:00:00Z";

fn direct_spec() -> ProcessRunSpec {
    ProcessRunSpec {
        runner: "process".into(),
        program: "/bin/true".into(),
        args: Vec::new(),
        cwd: None,
        timeout_seconds: 60,
        mirror_root: "/srv/mirrors".into(),
        target_dir: "/srv/mirrors/demo".into(),
        publication: None,
    }
}

fn atomic_spec() -> ProcessRunSpec {
    let mut spec = direct_spec();
    spec.target_dir = "/srv/publication/.lmt/candidates/demo/run-1-1".into();
    spec.publication = Some(Box::new(AtomicPublicationSpec {
        mirror: "demo".into(),
        publication_root: "/srv/publication".into(),
        published_dir: "/srv/publication/demo".into(),
        candidate_dir: spec.target_dir.clone(),
        basis_dir: "/srv/publication/.lmt/basis/demo".into(),
        exchange_dir: "/srv/publication/.lmt/exchange/demo".into(),
        gc_dir: "/srv/publication/.lmt/gc/demo".into(),
    }));
    spec
}

fn accepted(spec: ProcessRunSpec) -> SpoolRecord {
    SpoolRecord::accepted("run-1".into(), 1, "hash".into(), spec, NOW.into())
}

fn config() -> Config {
    Config {
        node: Node { name: "node-a".into() },
        server: Server { url: "http://127.0.0.1:1".into(), token_file: "/token".into() },
        storage: Storage {
            mirror_root: "/srv/mirrors".into(),
            spool_dir: "/spool".into(),
            publication_root: None,
            publication_max_private_generations: None,
            publication_reserve_bytes: None,
        },
        execution: Execution { max_concurrent_runs: 4 },
        runner: Runner { process: ProcessPolicy { enabled: true } },
        logging: None,
    }
}

fn offer(hash: &str) -> Offer {
    Offer { run_id: "run-1".into(), attempt: 1, spec_hash: hash.into(), spec: direct_spec() }
}

#[test]
fn atomic_acceptance_records_exact_private_namespace_and_protection_phases() {
    let record = accepted(atomic_spec());
    let publication = record.publication.as_ref().expect("publication state");
    assert_eq!(publication.phase, PublicationPhase::Executing);
    assert_eq!(publication.mirror, "demo");
    assert_eq!(publication.candidate_dir, "/srv/publication/.lmt/candidates/demo/run-1-1");
    assert!(!record.has_protected_publication_evidence());
    assert!(!record.requires_publication_recovery());

    for phase in [
        PublicationPhase::PreparingExchange,
        PublicationPhase::ReadyToCommit,
        PublicationPhase::PreVisibilityRecovery,
        PublicationPhase::VisiblePendingDurability,
        PublicationPhase::CommittedPendingReport,
    ] {
        assert!(phase.is_protected(), "{phase:?}");
        assert!(phase.requires_namespace_recovery(), "{phase:?}");
    }
    assert!(PublicationPhase::AbandonedFenced.is_protected());
    assert!(!PublicationPhase::AbandonedFenced.requires_namespace_recovery());
}

#[test]
fn records_stand_beside_their_logs() {
    let path = state_path("/spool", "run-1", 3);
    assert_eq!(path, "/spool/run-1-3.json");
    assert_eq!(key("run-1", 3), "run-1-3");
    assert_eq!(log_path(&path), "/spool/run-1-3.log");
    assert_eq!(temporary_path(&path), "/spool/run-1-3.tmp");
    assert_eq!(retired_path(&path), "/spool/run-1-3.retired");
    assert_eq!(spool_file(&path), SpoolFile::Record);
    assert_eq!(spool_file(&retired_path(&path)), SpoolFile::Retired);
    assert_eq!(spool_file(&log_path(&path)), SpoolFile::Other);
    assert_eq!(spool_file("/spool/.json"), SpoolFile::Other);
}

#[test]
fn paths_read_as_the_standard_library_reads_them() {
    for text in [
        "", "/", "//", "/.", ".", "..", "a", "a/", "a/b", "/a", "/a/", "/a/.", "/a/./b", "//a", "./a", "./.", "a/..",
        "a/b.json", "/s/run-1.json/", ".json", "a.b.c", "a/.b", "a/./", "/../x", "a//b//",
    ] {
        let std = std::path::Path::new(text);
        assert_eq!(
            path::parent(text),
            std.parent().map(|parent| parent.to_str().expect("text").to_owned()),
            "parent of {text:?}"
        );
        assert_eq!(path::replace_suffix(text, "log"), std.with_extension("log").to_str().expect("text"), "{text:?}");
        assert_eq!(
            path::suffix(text),
            std.extension().map(|suffix| suffix.to_str().expect("text").to_owned()),
            "suffix of {text:?}"
        );
        for other in ["", "/", "a", "/a", "a/b", "./a"] {
            assert_eq!(path::starts_with(text, other), std.starts_with(other), "{text:?} in {other:?}");
            assert_eq!(places_match(text, other), std == std::path::Path::new(other), "{text:?} is {other:?}");
            assert_eq!(path::join(text, other), std.join(other).to_str().expect("text"), "{text:?} and {other:?}");
        }
    }
}

#[test]
fn an_ended_record_goes_only_when_all_is_acknowledged() {
    let mut record = accepted(direct_spec());
    record.terminal(AttemptState::Succeeded, Some(0), None, None, NOW.into());
    assert_eq!(record.sequence, 2);
    assert!(!record.ready_for_cleanup());
    acknowledge_event(&mut record, 2);
    acknowledge_event(&mut record, 1);
    assert_eq!(record.acknowledged_sequence, 2);
    assert!(!record.ready_for_cleanup());
    acknowledge_log(&mut record, None, Upload { offset: 0, length: 0, complete: true });
    assert!(record.ready_for_cleanup());
    let mut protected = record.clone();
    protected.publication = accepted(atomic_spec()).publication;
    assert!(protected.ready_for_cleanup());
    protected.publication.as_mut().expect("publication").phase = PublicationPhase::AbandonedFenced;
    assert!(!protected.ready_for_cleanup());
}

#[test]
fn an_agent_needs_a_name_and_room() {
    assert_eq!(config().check(), Ok(()));
    let mut nameless = config();
    nameless.node.name = "no name".into();
    assert_eq!(nameless.check(), Err("invalid node name: \"no name\"".into()));
    let mut full = config();
    full.execution.max_concurrent_runs = 0;
    assert_eq!(full.check(), Err("max_concurrent_runs must be positive".into()));
    let logging = Logging { level: logging_level_default(), format: logging_format_default() };
    assert_eq!(logging, Logging { level: "info".into(), format: LoggingFormat::Json });
}

#[test]
fn concurrent_duplicate_start_executes_once_and_conflict_preserves_record() {
    let record = match accept(&config(), None, false, 0, offer("sha256:one"), NOW) {
        Acceptance::Started(record) => record,
        other => panic!("not started: {other:?}"),
    };
    assert_eq!(record.state, AttemptState::Accepted);
    let known = Some(record.spec_hash.as_str());
    assert_eq!(accept(&config(), known, true, 1, offer("sha256:one"), NOW), Acceptance::Known);
    assert_eq!(accept(&config(), known, true, 1, offer("sha256:conflict"), NOW), Acceptance::Conflict);
    assert_eq!(accept(&config(), None, true, 1, offer("sha256:one"), NOW), Acceptance::Ignored);
    assert_eq!(accept(&config(), None, false, 4, offer("sha256:one"), NOW), Acceptance::Ignored);
}

#[test]
fn local_policy_rejects_specs_outside_the_root() {
    assert!(safe_spec("/srv/mirrors", &direct_spec()));
    for change in 0..4 {
        let mut spec = direct_spec();
        match change {
            0 => spec.runner = "shell".into(),
            1 => spec.mirror_root = "/srv/mirrors/".into(),
            2 => spec.target_dir = "/srv/mirrorsx".into(),
            _ => spec.cwd = Some("/tmp".into()),
        }
        assert!(!safe_spec("/srv/mirrors", &spec), "{change}");
        let unsafe_offer = Offer { spec, ..offer("hash") };
        match accept(&config(), None, false, 0, unsafe_offer, NOW) {
            Acceptance::Rejected(record) => {
                assert_eq!(record.state, AttemptState::Rejected);
                assert_eq!(record.failure_kind, Some(FailureKind::Rejected));
                assert_eq!(record.failure_message.as_deref(), Some("local policy rejected spec"));
                assert_eq!(record.sequence, 2);
            }
            other => panic!("not rejected: {other:?}"),
        }
    }
    let mut disabled = config();
    disabled.runner.process.enabled = false;
    assert!(matches!(accept(&disabled, None, false, 0, offer("hash"), NOW), Acceptance::Rejected(_)));
}

#[test]
fn cancel_before_start_is_a_durable_hash_bound_tombstone() {
    let tombstone = match cancel(Found::Absent, "run-1", 1, "sha256:one", NOW) {
        Cancellation::Tombstone(record) => record,
        other => panic!("no tombstone: {other:?}"),
    };
    assert_eq!(tombstone.state, AttemptState::Cancelled);
    assert!(tombstone.spec.is_none());
    let known = Some(tombstone.spec_hash.as_str());
    assert_eq!(accept(&config(), known, false, 0, offer("sha256:one"), NOW), Acceptance::Known);
    assert_eq!(accept(&config(), known, false, 0, offer("sha256:conflict"), NOW), Acceptance::Conflict);
    match recover(tombstone, NOW) {
        Restart::Kept(record) => {
            assert_eq!(record.state, AttemptState::Cancelled);
            assert!(record.spec.is_none());
        }
        other => panic!("not kept: {other:?}"),
    }
}

#[test]
fn a_cancellation_is_written_down_once_for_the_attempt_it_names() {
    let running = accepted(direct_spec());
    assert_eq!(cancel(Found::Unreadable, "run-1", 1, "hash", NOW), Cancellation::Unreadable);
    assert_eq!(cancel(Found::Record(running.clone()), "run-1", 1, "other", NOW), Cancellation::Conflict);
    match cancel(Found::Record(running.clone()), "run-1", 1, "hash", NOW) {
        Cancellation::Requested(record) => assert!(record.cancel_requested),
        other => panic!("not requested: {other:?}"),
    }
    let mut ended = running;
    ended.terminal(AttemptState::Failed, Some(1), None, None, NOW.into());
    assert!(matches!(cancel(Found::Record(ended), "run-1", 1, "hash", NOW), Cancellation::Ended(_)));
}

#[test]
fn restarts_interrupt_what_they_find_open() {
    match recover(accepted(direct_spec()), NOW) {
        Restart::Ended(record) => {
            assert_eq!(record.state, AttemptState::Interrupted);
            assert_eq!(record.failure_kind, Some(FailureKind::Interrupted));
            assert_eq!(record.failure_message.as_deref(), Some("agent restarted without terminal result"));
        }
        other => panic!("not ended: {other:?}"),
    }
    let mut cancelled = accepted(direct_spec());
    cancelled.cancel_requested = true;
    assert!(matches!(recover(cancelled, NOW), Restart::Ended(record) if record.state == AttemptState::Cancelled));
    let mut publishing = accepted(atomic_spec());
    publishing.publication.as_mut().expect("publication").phase = PublicationPhase::ReadyToCommit;
    assert!(matches!(recover(publishing, NOW), Restart::Ended(record) if record.state == AttemptState::Interrupted));
}

#[test]
fn events_are_told_from_the_first() {
    let mut record = accepted(direct_spec());
    start(&mut record, false, NOW);
    let first = pending_event(&record, "instance").expect("pending");
    assert_eq!((first.event_sequence, first.state), (1, AttemptState::Accepted));
    assert_eq!(first.agent_instance_id, "instance");
    acknowledge_event(&mut record, 1);
    let second = pending_event(&record, "instance").expect("pending");
    assert_eq!((second.event_sequence, second.state), (2, AttemptState::Running));
    assert_eq!(second.started_at.as_deref(), Some(NOW));
    acknowledge_event(&mut record, 2);
    assert_eq!(pending_event(&record, "instance"), None);
}

#[test]
fn logs_are_sent_chunk_by_chunk() {
    let mut record = accepted(direct_spec());
    assert_eq!(plan_upload(&record, 0), Ok(None));
    assert_eq!(plan_upload(&record, 70_000), Ok(Some(Upload { offset: 0, length: 65_536, complete: false })));
    acknowledge_log(&mut record, Some("65536"), Upload { offset: 0, length: 65_536, complete: false });
    record.terminal(AttemptState::Succeeded, Some(0), None, None, NOW.into());
    assert_eq!(
        plan_upload(&record, 70_000),
        Ok(Some(Upload { offset: 65_536, length: 4_464, complete: true }))
    );
    acknowledge_log(&mut record, Some("nonsense"), Upload { offset: 65_536, length: 4_464, complete: false });
    assert_eq!(record.log_offset, 65_536);
    assert_eq!(
        plan_upload(&record, 10),
        Err("acknowledged log offset exceeds local spool length".into())
    );
}

#[test]
fn empty_log_completion_ack_retires_spool() {
    let mut record = accepted(direct_spec());
    record.terminal(AttemptState::Succeeded, Some(0), None, None, NOW.into());
    let first = Reconciliation::begin(record);
    assert_eq!(first.stage, Stage::Reporting);
    assert_eq!(first.event("instance").expect("event").event_sequence, 1);
    let disk = first.record.clone();
    let told = first.reported(Some(disk)).measured(0);
    let upload = Upload { offset: 0, length: 0, complete: true };
    assert_eq!(told.stage, Stage::Sending(upload));
    let disk = told.record.clone();
    let sent = told.sent(upload, Some(disk), Some("0"));
    assert_eq!(sent.stage, Stage::Ended(false));

    let second = Reconciliation::begin(sent.record);
    assert_eq!(second.event("instance").expect("event").event_sequence, 2);
    let disk = second.record.clone();
    assert_eq!(second.reported(Some(disk)).measured(0).stage, Stage::Ended(true));
}

#[test]
fn a_refused_report_changes_nothing() {
    let record = accepted(direct_spec());
    let before = record.clone();
    let refused = Reconciliation::begin(record).reported(None);
    assert_eq!(refused.record, before);
    assert_eq!(refused.measured(0).stage, Stage::Ended(false));
    let mut ahead = before;
    ahead.log_offset = 5;
    assert_eq!(
        Reconciliation::begin(ahead).measured(4).stage,
        Stage::Stopped("acknowledged log offset exceeds local spool length".into())
    );
}

#[test]
fn executions_end_as_they_came_out() {
    let end = |outcome: Outcome<String>| {
        let mut record = accepted(direct_spec());
        assert!(!finalize(&mut record, outcome, NOW));
        (record.state, record.exit_code, record.failure_kind, record.failure_message)
    };
    assert_eq!(
        end(Outcome::Process { success: true, code: Some(0) }),
        (AttemptState::Succeeded, Some(0), None, None)
    );
    assert_eq!(
        end(Outcome::Process { success: false, code: Some(3) }),
        (AttemptState::Failed, Some(3), Some(FailureKind::Process), Some("process exited non-zero".into()))
    );
    assert_eq!(
        end(Outcome::Lost("gone".into())),
        (AttemptState::Interrupted, None, Some(FailureKind::Interrupted), Some("gone".into()))
    );
    assert_eq!(
        end(Outcome::Shutdown),
        (AttemptState::Interrupted, None, Some(FailureKind::Interrupted), Some("agent shutdown".into()))
    );
    assert_eq!(
        end(Outcome::TimedOut),
        (AttemptState::TimedOut, None, Some(FailureKind::Timeout), Some("attempt timed out".into()))
    );
    assert_eq!(end(Outcome::Cancelled), (AttemptState::Cancelled, None, None, None));

    let mut cancelled = accepted(atomic_spec());
    note_cancellation(&mut cancelled, true);
    assert!(!finalize(&mut cancelled, Outcome::Process { success: true, code: Some(0) }, NOW));
    assert_eq!(cancelled.state, AttemptState::Cancelled);
    let mut atomic = accepted(atomic_spec());
    assert!(finalize(&mut atomic, Outcome::Process { success: true, code: Some(0) }, NOW));
    assert_eq!(atomic.state, AttemptState::Accepted);
}

#[test]
fn attempts_that_cannot_begin_fail_or_are_cancelled() {
    let mut unprepared = accepted(atomic_spec());
    preparation_failed(&mut unprepared, false, "no room".into(), NOW);
    assert_eq!(unprepared.failure_kind, Some(FailureKind::InvalidResult));
    let mut unspawned = accepted(direct_spec());
    spawn_failed(&mut unspawned, false, "no such file".into(), NOW);
    assert_eq!(unspawned.failure_kind, Some(FailureKind::Process));
    assert_eq!(unspawned.failure_message.as_deref(), Some("no such file"));
    let mut cancelled = accepted(direct_spec());
    spawn_failed(&mut cancelled, true, "no such file".into(), NOW);
    assert_eq!((cancelled.state, cancelled.failure_kind), (AttemptState::Cancelled, None));

    let mut failed = accepted(atomic_spec());
    assert!(publication_failed(&mut failed, Some(0), "broken".into(), NOW));
    assert_eq!(failed.state, AttemptState::Failed);
    let mut moved = accepted(atomic_spec());
    moved.publication.as_mut().expect("publication").phase = PublicationPhase::ReadyToCommit;
    assert!(!publication_failed(&mut moved, Some(0), "broken".into(), NOW));
    assert_eq!(moved.state, AttemptState::Accepted);
}

#[test]
fn output_is_marked_by_its_stream() {
    assert_eq!(frame_bytes(Frame::Stdout(b"out\n".to_vec())), b"[stdout] out\n");
    assert_eq!(frame_bytes(Frame::Stderr(b"err\n".to_vec())), b"[stderr] err\n");
}

#[test]
fn polls_tell_what_the_agent_owns() {
    let open = accepted(direct_spec());
    let mut ended = accepted(direct_spec());
    ended.terminal(AttemptState::Succeeded, Some(0), None, None, NOW.into());
    let running = owned(&vec![open, ended]);
    assert_eq!(running.len(), 1);
    assert_eq!((running[0].run_id.as_str(), running[0].state), ("run-1", AttemptState::Accepted));
    let identity =
        AgentIdentity { version: "0.1.0".into(), instance: "installation".into(), boot: "boot".into() };
    let request = poll_request(&config(), &identity, 7, running, 1, Some(9), vec!["x".into()], None);
    assert_eq!(request.protocol_version, "v1alpha1");
    assert_eq!((request.poll_sequence, request.capacity.active_runs), (7, 1));
    assert_eq!(request.capacity.max_concurrent_runs, 4);
    assert_eq!(request.mirror_root, "/srv/mirrors");
    assert_eq!(request.agent_boot_id, "boot");
}

#[test]
fn mounts_are_read_as_the_kernel_lists_them() {
    assert_eq!(decode_mount_path(&b"/a\\040b".to_vec()), b"/a b");
    assert_eq!(decode_mount_path(&b"/a\\04".to_vec()), b"/a\\04");
    assert_eq!(decode_mount_path(&b"\\134\\377x".to_vec()), b"\\\xffx");
    let mounts = b"22 1 0:5 / / rw - ext4 x rw\n23 22 0:6 / /srv/my\\040mirrors rw - ext4 y rw\nshort line\n".to_vec();
    assert!(listed_mount_point(&mounts, &b"/".to_vec()));
    assert!(listed_mount_point(&mounts, &b"/srv/my mirrors".to_vec()));
    assert!(!listed_mount_point(&mounts, &b"/srv".to_vec()));
    assert_eq!(read_mounts(&mounts, &b"/".to_vec()), Some(true));
    assert_eq!(read_mounts(&mounts, &b"/srv".to_vec()), Some(false));
    let damaged = b"1 2 3 4 /a x\n1 2 3 4 /b\\777 x\n1 2 3 4 /c x\n".to_vec();
    assert!(listed_mount_point(&damaged, &b"/a".to_vec()));
    assert_eq!(read_mounts(&damaged, &b"/a".to_vec()), Some(true));
    assert_eq!(read_mounts(&damaged, &b"/c".to_vec()), None);
    assert_eq!(read_mounts(&damaged, &b"/d".to_vec()), None);
}

#[test]
fn preflight_rejects_private_root_below_served_root_and_invalid_targets() {
    let facts = RootFacts {
        mirror_directory: true,
        publication_directory: true,
        mirror_device: 1,
        publication_device: 1,
    };
    assert_eq!(preflight("/srv/mirrors", "/srv/publication", facts), Ok(()));
    for below in ["/srv/mirrors/private", "/srv/mirrors"] {
        assert_eq!(
            preflight("/srv/mirrors", below, facts),
            Err("publication_root must be outside mirror_root".into())
        );
    }
    assert_eq!(
        preflight("/srv/mirrors", "/srv/publication", RootFacts { mirror_directory: false, ..facts }),
        Err("mirror_root and publication_root must be directories".into())
    );
    assert_eq!(
        preflight("/srv/mirrors", "/srv/publication", RootFacts { publication_device: 2, ..facts }),
        Err("mirror_root and publication_root must be on the same mounted filesystem".into())
    );

    let target = PublishedTarget { directory: true, device: 1, parent_device: Some(1), mounted: false };
    assert_eq!(validate_published_target("/srv/mirrors/demo", Some(target)), Ok(()));
    assert_eq!(validate_published_target("/srv/mirrors/absent", None), Ok(()));
    assert_eq!(
        validate_published_target("/srv/file", Some(PublishedTarget { directory: false, ..target })),
        Err("published target /srv/file is not an ordinary directory".into())
    );
    assert_eq!(
        validate_published_target("/", Some(PublishedTarget { parent_device: None, ..target })),
        Err("published target has no parent".into())
    );
    for mount in [PublishedTarget { mounted: true, ..target }, PublishedTarget { device: 2, ..target }] {
        assert_eq!(
            validate_published_target("/srv/m", Some(mount)),
            Err("published target /srv/m is a mount point".into())
        );
    }
    assert_eq!(validate_private_directory("/p", true), Ok(()));
    assert_eq!(
        validate_private_directory("/p", false),
        Err("private publication path /p is not an ordinary directory".into())
    );
}

#[test]
fn candidate_admission_is_fresh_and_basis_never_aliases_the_destination() {
    let mut spec = atomic_spec();
    let publication = spec.publication.as_mut().expect("publication");
    publication.candidate_dir = "/p/demo/attempts/run-1-1/root".into();
    publication.basis_dir = "/p/demo/attempts/run-1-1/basis".into();
    let record = accepted(spec);
    let state = record.publication.as_ref().expect("publication state");
    let first = prepare_candidate(state, None, None, None).expect("first publication");
    assert_eq!(first.attempt, "/p/demo/attempts/run-1-1");
    assert_eq!(first.above.as_deref(), Some("/p/demo/attempts"));
    assert_eq!(first.basis, None);
    let entry = Some(FileIdentity { device: 7, inode: 11 });
    let update = prepare_candidate(state, None, None, entry).expect("update");
    assert_eq!(update.basis.as_deref(), Some(state.published_dir.as_str()));
    for (candidate, basis) in [(entry, None), (None, entry)] {
        assert_eq!(
            prepare_candidate(state, candidate, basis, None),
            Err("fresh Atomic Attempt candidate or basis already exists".into())
        );
    }
    let mut apart = state.clone();
    apart.basis_dir = "/elsewhere/basis".into();
    assert_eq!(
        prepare_candidate(&apart, None, None, None),
        Err("candidate and basis do not share one Attempt directory".into())
    );
    let mut rootless = state.clone();
    rootless.candidate_dir = "/".into();
    assert_eq!(prepare_candidate(&rootless, None, None, None), Err("candidate has no Attempt directory".into()));
}
