use lmt::agent::publication::{Action, Event, Job, Purpose, Stage};
use lmt::agent::spool::{FileIdentity, PublicationPhase, SpoolRecord};
use lmt::domain::state::{AtomicPublicationSpec, AttemptState, FailureKind, ProcessRunSpec};
use std::collections::BTreeMap;

const NOW: &str = "2026-09-03T00:00:00Z";

/// A file system of names and entries that can be told to fail one action.
struct World {
    entries: BTreeMap<String, FileIdentity>,
    next: u64,
    fail: Option<String>,
    written: Vec<SpoolRecord>,
}

impl World {
    fn new() -> World {
        let mut world = World { entries: BTreeMap::new(), next: 1, fail: None, written: Vec::new() };
        for directory in ["/r/mirrors", "/r/publication/demo"] {
            world.create(directory);
        }
        world
    }

    fn create(&mut self, name: &str) -> FileIdentity {
        let identity = FileIdentity { device: 1, inode: self.next };
        self.next += 1;
        self.entries.insert(name.to_owned(), identity);
        identity
    }

    fn see(&self, name: &str) -> Option<FileIdentity> {
        self.entries.get(name).copied()
    }

    fn rename(&mut self, from: &str, to: &str) -> Event {
        if self.entries.contains_key(to) || !self.entries.contains_key(from) {
            return Event::Failed("RENAME_NOREPLACE".into());
        }
        let entry = self.entries.remove(from).expect("entry");
        self.entries.insert(to.to_owned(), entry);
        Event::Done
    }

    fn exchange(&mut self, left: &str, right: &str) -> Event {
        match (self.see(left), self.see(right)) {
            (Some(a), Some(b)) => {
                self.entries.insert(left.to_owned(), b);
                self.entries.insert(right.to_owned(), a);
                Event::Done
            }
            _ => Event::Failed("RENAME_EXCHANGE".into()),
        }
    }

    fn perform(&mut self, job: &Job, action: &Action) -> Event {
        let name = format!("{action:?}");
        if let Some(failing) = self.fail.clone() {
            if name.starts_with(&failing) {
                self.fail = None;
                return Event::Failed(format!("injected {failing}"));
            }
        }
        match action {
            Action::Observe(names) => Event::Seen(names.iter().map(|name| Ok(self.see(name))).collect()),
            Action::Rename { from, to } => self.rename(from, to),
            Action::Exchange { left, right } => self.exchange(left, right),
            Action::Persist => {
                self.written.push(job.proposed());
                Event::Done
            }
            Action::Validate { .. } | Action::CreateDirectory(_) | Action::Sync(_) => Event::Done,
            Action::Finish(_) => unreachable!("finished"),
        }
    }

    fn play(&mut self, record: SpoolRecord, purpose: Purpose) -> (SpoolRecord, Option<String>) {
        let mut job = Job::begin(record, purpose, NOW);
        loop {
            let action = job.action();
            if let Action::Finish(error) = action {
                return (job.record, error);
            }
            let event = self.perform(&job, &action);
            job = job.step(event, NOW);
        }
    }

    /// Works on a publication until the given stage is reached, and leaves it there.
    fn interrupt(&mut self, record: SpoolRecord, purpose: Purpose, stage: &Stage<String>) -> SpoolRecord {
        let mut job = Job::begin(record, purpose, NOW);
        while job.stage != *stage {
            let action = job.action();
            assert!(!matches!(action, Action::Finish(_)), "finished before {stage:?}");
            let event = self.perform(&job, &action);
            job = job.step(event, NOW);
        }
        job.record
    }
}

fn record_without_candidate(run: &str) -> SpoolRecord {
    let candidate = format!("/r/publication/demo/attempts/{run}-1/root");
    let spec = ProcessRunSpec {
        runner: "process".into(),
        program: "/bin/true".into(),
        args: Vec::new(),
        cwd: None,
        timeout_seconds: 60,
        mirror_root: "/r/mirrors".into(),
        target_dir: candidate.clone(),
        publication: Some(Box::new(AtomicPublicationSpec {
            mirror: "demo".into(),
            publication_root: "/r/publication".into(),
            published_dir: "/r/mirrors/demo".into(),
            candidate_dir: candidate,
            basis_dir: format!("/r/publication/demo/attempts/{run}-1/basis"),
            exchange_dir: "/r/publication/demo/exchange".into(),
            gc_dir: "/r/publication/demo/gc".into(),
        })),
    };
    let mut record = SpoolRecord::accepted(run.into(), 1, format!("hash-{run}"), spec, NOW.into());
    record.state = AttemptState::Running;
    record.sequence = 2;
    record.started_at = Some(NOW.into());
    record
}

fn record(world: &mut World, run: &str) -> (SpoolRecord, FileIdentity) {
    let record = record_without_candidate(run);
    let name = record.publication.as_ref().expect("publication").candidate_dir.clone();
    let identity = world.create(&name);
    (record, identity)
}

fn phase(record: &SpoolRecord) -> PublicationPhase {
    record.publication.as_ref().expect("publication").phase
}

const PUBLISHED: &str = "/r/mirrors/demo";
const EXCHANGE: &str = "/r/publication/demo/exchange";

#[test]
fn first_and_repeated_publications_preserve_current_and_previous_ownership() {
    let mut world = World::new();
    let (first, first_candidate) = record(&mut world, "run-1");
    let (first, error) = world.play(first, Purpose::Commit);
    assert_eq!(error, None);
    assert_eq!(first.state, AttemptState::Succeeded);
    assert_eq!(phase(&first), PublicationPhase::CommittedPendingReport);
    assert_eq!(world.see(PUBLISHED), Some(first_candidate));
    assert_eq!(world.see(EXCHANGE), None);

    let (second, second_candidate) = record(&mut world, "run-2");
    let (second, error) = world.play(second, Purpose::Commit);
    assert_eq!(error, None);
    assert_eq!(second.exit_code, Some(0));
    assert_eq!(world.see(PUBLISHED), Some(second_candidate));
    assert_eq!(world.see(EXCHANGE), Some(first_candidate));

    let (third, third_candidate) = record(&mut world, "run-3");
    let (third, error) = world.play(third, Purpose::Commit);
    assert_eq!(error, None);
    assert_eq!(world.see(PUBLISHED), Some(third_candidate));
    assert_eq!(world.see(EXCHANGE), Some(second_candidate));
    let state = third.publication.as_ref().expect("publication state");
    let rotated = state.rotated_previous_path.as_ref().expect("rotated older generation");
    assert_eq!(rotated, "/r/publication/demo/gc/previous-run-3-1");
    assert_eq!(world.see(rotated), state.stable_previous_identity);
    assert_eq!(world.see(rotated), Some(first_candidate));
}

#[test]
fn ready_record_recovers_forward_when_visibility_happened_before_spool_update() {
    let mut world = World::new();
    let (initial, old) = record(&mut world, "run-old");
    world.play(initial, Purpose::Commit);
    let (next, candidate) = record(&mut world, "run-new");
    let ready = world.interrupt(next, Purpose::Commit, &Stage::MakingVisible);
    assert_eq!(phase(&ready), PublicationPhase::ReadyToCommit);
    world.exchange(EXCHANGE, PUBLISHED);
    let (recovered, error) = world.play(ready, Purpose::Recover);
    assert_eq!(error, None);
    assert_eq!(recovered.state, AttemptState::Succeeded);
    assert_eq!(world.see(PUBLISHED), Some(candidate));
    assert_eq!(world.see(EXCHANGE), Some(old));
}

#[test]
fn preparing_write_ahead_recovers_before_and_between_private_namespace_mutations() {
    for stage in [Stage::CreatingGc, Stage::SeeingStaging, Stage::SyncingPrepared] {
        let mut world = World::new();
        for run in ["run-1", "run-2"] {
            let (seed, _) = record(&mut world, run);
            world.play(seed, Purpose::Commit);
        }
        let published = world.see(PUBLISHED);
        let (third, candidate) = record(&mut world, "run-3");
        let durable = world.interrupt(third, Purpose::Commit, &stage);
        assert_eq!(phase(&durable), PublicationPhase::PreparingExchange, "{stage:?}");
        let (recovered, error) = world.play(durable, Purpose::Recover);
        assert_eq!(error, None, "{stage:?}");
        assert_eq!(recovered.state, AttemptState::Succeeded);
        assert_eq!(world.see(PUBLISHED), Some(candidate));
        assert_eq!(world.see(EXCHANGE), published);
    }
}

#[test]
fn cancellation_after_staging_restores_private_previous_before_terminal() {
    let mut world = World::new();
    for run in ["run-1", "run-2"] {
        let (seed, _) = record(&mut world, run);
        world.play(seed, Purpose::Commit);
    }
    let (mut cancelled, candidate) = record(&mut world, "run-cancelled");
    let published_before = world.see(PUBLISHED);
    let previous_before = world.see(EXCHANGE);
    cancelled.cancel_requested = true;
    let (cancelled, error) = world.play(cancelled, Purpose::Commit);
    assert_eq!(error, None);
    assert_eq!(cancelled.state, AttemptState::Cancelled);
    assert_eq!(cancelled.failure_message.as_deref(), Some("cancelled before visibility"));
    assert_eq!(phase(&cancelled), PublicationPhase::Executing);
    assert_eq!(world.see(PUBLISHED), published_before);
    assert_eq!(world.see(EXCHANGE), previous_before);
    let name = &cancelled.publication.as_ref().expect("publication").candidate_dir;
    assert_eq!(world.see(name), Some(candidate));
}

#[test]
fn restart_ready_waits_for_control_plane_then_honors_delivered_cancellation() {
    let mut world = World::new();
    let (initial, old) = record(&mut world, "run-old");
    world.play(initial, Purpose::Commit);
    let (next, _) = record(&mut world, "run-new");
    let ready = world.interrupt(next, Purpose::Commit, &Stage::SeeingReady);
    let (mut ready, error) = world.play(ready, Purpose::Settle);
    assert_eq!(error, None);
    assert_eq!(ready.state, AttemptState::Running);
    assert_eq!(phase(&ready), PublicationPhase::ReadyToCommit);
    assert_eq!(world.see(PUBLISHED), Some(old));
    ready.cancel_requested = true;
    let (recovered, error) = world.play(ready, Purpose::Recover);
    assert_eq!(error, None);
    assert_eq!(recovered.state, AttemptState::Cancelled);
    assert_eq!(world.see(PUBLISHED), Some(old));
}

#[test]
fn an_interrupted_return_is_finished_as_intended() {
    for stage in 0..3 {
        let mut world = World::new();
        for run in ["run-1", "run-2"] {
            let (seed, _) = record(&mut world, run);
            world.play(seed, Purpose::Commit);
        }
        let (mut third, candidate) = record(&mut world, "run-3");
        let before = (world.see(PUBLISHED), world.see(EXCHANGE));
        third.cancel_requested = true;
        let mut job = Job::begin(third, Purpose::Commit, NOW);
        loop {
            let reached = match &job.stage {
                Stage::SeeingCandidate(_) => stage == 0,
                Stage::SeeingPrevious(_) => stage == 1,
                Stage::SyncingRestored(_) => stage == 2,
                _ => false,
            };
            if reached {
                break;
            }
            let action = job.action();
            let event = world.perform(&job, &action);
            job = job.step(event, NOW);
        }
        assert_eq!(phase(&job.record), PublicationPhase::PreVisibilityRecovery);
        let (recovered, error) = world.play(job.record, Purpose::Recover);
        assert_eq!(error, None);
        assert_eq!(recovered.state, AttemptState::Cancelled);
        assert_eq!((world.see(PUBLISHED), world.see(EXCHANGE)), before);
        let name = &recovered.publication.as_ref().expect("publication").candidate_dir;
        assert_eq!(world.see(name), Some(candidate));
    }
}

#[test]
fn failures_stop_or_take_back_a_publication() {
    for (failing, message) in [
        ("Validate", "injected Validate"),
        ("CreateDirectory", "visibility commit requires ready_to_commit phase"),
        ("Rename", "visibility commit requires ready_to_commit phase"),
        ("Persist", "persist preparing_exchange"),
    ] {
        let mut world = World::new();
        let (next, candidate) = record(&mut world, "run-1");
        let name = next.publication.as_ref().expect("publication").candidate_dir.clone();
        world.fail = Some(failing.into());
        let (record, error) = world.play(next, Purpose::Commit);
        assert_eq!(error.as_deref(), Some(message));
        assert_eq!(phase(&record), PublicationPhase::Executing, "{failing}");
        assert_eq!(world.see(&name), Some(candidate), "{failing}");
        assert_eq!(world.see(PUBLISHED), None);
    }
    let mut world = World::new();
    let (next, candidate) = record(&mut world, "run-1");
    let ready = world.interrupt(next, Purpose::Commit, &Stage::SyncingVisible);
    world.fail = Some("Sync".into());
    let (pending, error) = world.play(ready, Purpose::Recover);
    assert_eq!(error.as_deref(), Some("publication visible but directory durability is pending"));
    assert_eq!(phase(&pending), PublicationPhase::VisiblePendingDurability);
    let (settled, error) = world.play(pending, Purpose::Settle);
    assert_eq!((settled.state, error), (AttemptState::Succeeded, None));
    assert_eq!(world.see(PUBLISHED), Some(candidate));
    assert_eq!(world.written.last(), Some(&settled));
}

#[test]
fn unexpected_entries_are_named() {
    let mut world = World::new();
    let (seed, _) = record(&mut world, "run-1");
    world.play(seed, Purpose::Commit);
    let (second, _) = record(&mut world, "run-2");
    world.play(second, Purpose::Commit);
    let (third, _) = record(&mut world, "run-3");
    let durable = world.interrupt(third, Purpose::Commit, &Stage::SeeingRotation);
    let stranger = world.create(EXCHANGE);
    let (record, error) = world.play(durable, Purpose::Recover);
    let names = format!(
        "(Some(FileIdentity {{ device: {}, inode: {} }}), None)",
        stranger.device, stranger.inode
    );
    assert_eq!(error, Some(format!("cannot restore stable previous identity: {names}")));
    let state = record.publication.as_ref().expect("publication");
    assert_eq!(state.phase, PublicationPhase::PreVisibilityRecovery);
    assert_eq!(
        state.pre_visibility_message,
        Some(format!("cannot reconstruct stable previous rotation from identities: {names}"))
    );
    assert_eq!(state.pre_visibility_failure_kind, Some(FailureKind::InvalidResult));
}

#[test]
fn surveys_refuse_what_cannot_be_exchanged() {
    let mut world = World::new();
    let missing = record_without_candidate("run-1");
    let (_, error) = world.play(missing, Purpose::Commit);
    assert_eq!(error.as_deref(), Some("candidate does not exist after sync success"));

    let (next, _) = record(&mut world, "run-2");
    world.entries.insert("/r/mirrors".into(), FileIdentity { device: 2, inode: 1 });
    let (_, error) = world.play(next.clone(), Purpose::Commit);
    assert_eq!(error.as_deref(), Some("candidate, exchange, and published parent are not on one filesystem"));

    world.entries.remove("/r/mirrors");
    let (_, error) = world.play(next.clone(), Purpose::Commit);
    assert_eq!(error.as_deref(), Some("stat /r/mirrors"));

    world.create("/r/mirrors");
    world.create(EXCHANGE);
    let (_, error) = world.play(next.clone(), Purpose::Commit);
    assert_eq!(error.as_deref(), Some("published target is absent while a stable previous generation exists"));

    let mut direct = next.clone();
    direct.publication = None;
    let (_, error) = world.play(direct.clone(), Purpose::Commit);
    assert_eq!(error.as_deref(), Some("Atomic record has no publication state"));
    let (_, error) = world.play(direct, Purpose::Recover);
    assert_eq!(error.as_deref(), Some("publication recovery record has no publication state"));
    let mut ready = next;
    ready.publication.as_mut().expect("publication").phase = PublicationPhase::ReadyToCommit;
    let (_, error) = world.play(ready.clone(), Purpose::Commit);
    assert_eq!(error.as_deref(), Some("publication preparation requires executing phase"));
    let (_, error) = world.play(ready, Purpose::Recover);
    assert_eq!(error.as_deref(), Some("ready_to_commit lacks candidate identity"));
}
