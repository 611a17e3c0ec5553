//! What holds of every publication: whatever fails and wherever it is interrupted, the names stand
//! so that it can be finished or taken back.
use super::progress::begun;
use super::progress::intended;
use super::publication::rotated_path;
use super::publication::ActionView;
use super::publication::Change;
use super::publication::EventView;
use super::publication::JobView;
use super::publication::Purpose;
use super::publication::Stage;
use super::spool::FileIdentity;
use super::spool::PublicationPhase;
use super::spool::PublicationView;
use super::spool::RecordView;
use crate::domain::state::AttemptState;
use crate::path;
use vstd::prelude::*;

verus! {

/// The names of a file system and what each leads to.
pub type World = Map<Seq<char>, FileIdentity>;

/// What a name leads to.
pub open spec fn lookup(world: World, name: Seq<char>) -> Option<FileIdentity> {
    if world.dom().contains(name) {
        Some(world[name])
    } else {
        None
    }
}

/// True when no two names lead to the same entry.
pub open spec fn unaliased(world: World) -> bool {
    forall|a: Seq<char>, b: Seq<char>|
        #![trigger world[a], world[b]]
        world.dom().contains(a) && world.dom().contains(b) && a != b ==> world[a] != world[b]
}

/// True when an action in one world can end in another with the event told: a look-up answers
/// truly or fails, a move takes place or fails and moves nothing, and all else moves nothing.
pub open spec fn comes_of(world: World, action: ActionView, after: World, event: EventView) -> bool {
    match action {
        ActionView::Observe(names) => {
            &&& after == world
            &&& event is Seen
            &&& event->Seen_0.len() == names.len()
            &&& forall|i: int|
                0 <= i < names.len() ==> (#[trigger] event->Seen_0[i]) is Err || event->Seen_0[i] == Ok::<
                    Option<FileIdentity>,
                    Seq<char>,
                >(lookup(world, names[i]))
        },
        ActionView::Rename { from, to } => {
            ||| event is Failed && after == world
            ||| {
                &&& event is Done
                &&& world.dom().contains(from)
                &&& !world.dom().contains(to)
                &&& after == world.remove(from).insert(to, world[from])
            }
        },
        ActionView::Exchange { left, right } => {
            ||| event is Failed && after == world
            ||| {
                &&& event is Done
                &&& world.dom().contains(left)
                &&& world.dom().contains(right)
                &&& after == world.insert(left, world[right]).insert(right, world[left])
            }
        },
        _ => after == world && !(event is Seen),
    }
}

/// True when no two names of a publication are the same.
pub open spec fn apart(p: PublicationView, older: Seq<char>) -> bool {
    &&& p.candidate_dir != p.exchange_dir
    &&& p.candidate_dir != p.published_dir
    &&& p.exchange_dir != p.published_dir
    &&& older != p.candidate_dir
    &&& older != p.exchange_dir
    &&& older != p.published_dir
}

/// True of a publication that knows its candidate, and where the older generation goes if there is
/// one.
pub open spec fn prepared(p: PublicationView) -> bool {
    &&& p.candidate_identity is Some
    &&& p.stable_previous_identity is Some ==> p.rotated_previous_path is Some
    &&& p.stable_previous_identity != p.candidate_identity
    &&& p.published_identity != p.candidate_identity
    &&& p.published_identity is None ==> p.stable_previous_identity is None
    &&& p.rotated_previous_path is Some ==> apart(p, p.rotated_previous_path->0)
    &&& p.candidate_dir != p.exchange_dir
    &&& p.candidate_dir != p.published_dir
    &&& p.exchange_dir != p.published_dir
}

/// True when the name of the older generation leads to the entry told.
pub open spec fn older_is(world: World, p: PublicationView, entry: Option<FileIdentity>) -> bool {
    p.stable_previous_identity is Some ==> lookup(world, p.rotated_previous_path->0) == entry
}

/// Nothing has been moved.
pub open spec fn untouched(world: World, p: PublicationView) -> bool {
    &&& lookup(world, p.candidate_dir) == p.candidate_identity
    &&& lookup(world, p.exchange_dir) == p.stable_previous_identity
    &&& lookup(world, p.published_dir) == p.published_identity
    &&& older_is(world, p, None)
}

/// The generation before the published one has left the exchange slot.
pub open spec fn slot_free(world: World, p: PublicationView) -> bool {
    &&& lookup(world, p.candidate_dir) == p.candidate_identity
    &&& lookup(world, p.exchange_dir) is None
    &&& lookup(world, p.published_dir) == p.published_identity
    &&& older_is(world, p, p.stable_previous_identity)
}

/// The candidate stands in the exchange slot.
pub open spec fn in_slot(world: World, p: PublicationView) -> bool {
    &&& lookup(world, p.candidate_dir) is None
    &&& lookup(world, p.exchange_dir) == p.candidate_identity
    &&& lookup(world, p.published_dir) == p.published_identity
    &&& older_is(world, p, p.stable_previous_identity)
}

/// The candidate is published; what was published before it stands in the exchange slot, and what
/// stood there is kept as the older generation.
pub open spec fn shown(world: World, p: PublicationView) -> bool {
    &&& lookup(world, p.candidate_dir) is None
    &&& lookup(world, p.exchange_dir) == p.published_identity
    &&& lookup(world, p.published_dir) == p.candidate_identity
    &&& older_is(world, p, p.stable_previous_identity)
}

/// True when the candidate is private still.
pub open spec fn hidden(world: World, p: PublicationView) -> bool {
    untouched(world, p) || slot_free(world, p) || in_slot(world, p)
}

/// True when the name for the older generation is free and no two names of the publication are the
/// same.
pub open spec fn unstarted(record: RecordView, world: World) -> bool {
    apart(record.publication->0, rotated_path(record)) && lookup(world, rotated_path(record)) is None
}

/// True when the names stand as the phase of the record allows.
pub open spec fn coherent(record: RecordView, world: World) -> bool {
    let p = record.publication->0;
    record.publication is Some ==> match p.phase {
        PublicationPhase::Executing => record.finished_at is Some || unstarted(record, world),
        PublicationPhase::PreparingExchange | PublicationPhase::PreVisibilityRecovery => prepared(p) && hidden(
            world,
            p,
        ),
        PublicationPhase::ReadyToCommit => prepared(p) && (in_slot(world, p) || shown(world, p)),
        PublicationPhase::VisiblePendingDurability | PublicationPhase::CommittedPendingReport => prepared(p) && shown(
            world,
            p,
        ),
        PublicationPhase::AbandonedFenced => true,
    }
}

/// True when the names stand as the stage of a job says.
pub open spec fn stands(job: JobView, world: World) -> bool {
    let p = job.publication();
    match job.stage {
        Stage::Validating | Stage::Surveying => p.phase is Executing && unstarted(job.record, world),
        Stage::Persisting(change) => match change {
            Change::Preparing(survey) => {
                &&& p.phase is Executing
                &&& unstarted(job.record, world)
                &&& lookup(world, p.candidate_dir) == Some(survey.candidate)
                &&& lookup(world, p.published_dir) == survey.published
                &&& lookup(world, p.exchange_dir) == survey.exchange
                &&& survey.published is None ==> survey.exchange is None
            },
            Change::Ready(_) => p.phase is PreparingExchange && in_slot(world, p),
            Change::Intent(_) => p.phase is PreparingExchange || (p.phase is ReadyToCommit && in_slot(world, p)),
            Change::Pending | Change::Committed(_) => (p.phase is ReadyToCommit
                || p.phase is VisiblePendingDurability) && shown(world, p),
            Change::Restored(_, _) => p.phase is PreVisibilityRecovery && untouched(world, p),
            Change::Settled(_) => p.phase is CommittedPendingReport,
        },
        Stage::CreatingGc | Stage::SeeingRotation => p.phase is PreparingExchange,
        Stage::Rotating => p.phase is PreparingExchange && untouched(world, p)
            && p.stable_previous_identity is Some,
        Stage::SeeingStaging => p.phase is PreparingExchange && (slot_free(world, p) || in_slot(world, p)),
        Stage::Staging => p.phase is PreparingExchange && slot_free(world, p),
        Stage::SyncingPrepared | Stage::SeeingRotated => p.phase is PreparingExchange && in_slot(world, p),
        Stage::SeeingReady | Stage::MakingVisible => p.phase is ReadyToCommit && in_slot(world, p),
        Stage::SeeingVisible | Stage::SyncingVisible => (p.phase is ReadyToCommit
            || p.phase is VisiblePendingDurability) && shown(world, p),
        Stage::SeeingOutcome => p.phase is ReadyToCommit,
        Stage::SeeingCandidate(_) => p.phase is PreVisibilityRecovery,
        Stage::ReturningCandidate(_) => p.phase is PreVisibilityRecovery && in_slot(world, p),
        Stage::SeeingPrevious(_) => p.phase is PreVisibilityRecovery && (untouched(world, p) || slot_free(
            world,
            p,
        )),
        Stage::ReturningPrevious(_) => p.phase is PreVisibilityRecovery && slot_free(world, p)
            && p.stable_previous_identity is Some,
        Stage::SyncingRestored(_) => p.phase is PreVisibilityRecovery && untouched(world, p),
        Stage::Finished(_) => true,
    }
}

/// True of a job at work in a world: its stage rests on its record, no two names lead to the same
/// entry, and the names stand as record and stage say.
pub open spec fn in_order(job: JobView, world: World) -> bool {
    &&& job.sound()
    &&& unaliased(world)
    &&& coherent(job.record, world)
    &&& job.stage is Finished || (job.record.publication is Some && stands(job, world))
}

/// A publication that is begun where the names stand as its record says is in order; one that is
/// committed belongs to an attempt that has not ended.
pub proof fn law_publications_begin_in_order(record: RecordView, purpose: Purpose, world: World, now: Seq<char>)
    requires
        record.sequence < u64::MAX,
        unaliased(world),
        coherent(record, world),
        purpose == Purpose::Commit ==> record.finished_at is None,
    ensures
        in_order(begun(record, purpose, now), world),
{
}

/// Whatever an action comes to, and so wherever the agent is interrupted, the publication stays in
/// order: the names stand as the record that is on disk allows.
#[verifier::rlimit(50)]
pub proof fn law_publications_stay_in_order(
    job: JobView,
    world: World,
    after: World,
    event: EventView,
    now: Seq<char>,
)
    requires
        in_order(job, world),
        comes_of(world, job.asks(), after, event),
    ensures
        in_order(job.next(event, now), after),
{
}

/// A candidate that the record calls committed is the published generation, and the generation
/// before it is kept in the exchange slot.
pub proof fn law_committed_candidates_are_published(job: JobView, world: World)
    requires
        in_order(job, world),
        job.record.publication is Some,
        job.publication().phase is CommittedPendingReport,
    ensures
        lookup(world, job.publication().published_dir) == job.publication().candidate_identity,
        lookup(world, job.publication().exchange_dir) == job.publication().published_identity,
{
}

/// What comes of an action where nothing fails but a move from a name that is not there or to a
/// name that is not free.
pub open spec fn answer(world: World, action: ActionView) -> (World, EventView) {
    match action {
        ActionView::Observe(names) => (
            world,
            EventView::Seen(names.map_values(|name: Seq<char>| Ok(lookup(world, name)))),
        ),
        ActionView::Rename { from, to } => if world.dom().contains(from) && !world.dom().contains(to) {
            (world.remove(from).insert(to, world[from]), EventView::Done)
        } else {
            (world, EventView::Failed("RENAME_NOREPLACE"@))
        },
        ActionView::Exchange { left, right } => if world.dom().contains(left) && world.dom().contains(right) {
            (world.insert(left, world[right]).insert(right, world[left]), EventView::Done)
        } else {
            (world, EventView::Failed("RENAME_EXCHANGE"@))
        },
        _ => (world, EventView::Done),
    }
}

/// A job and the world after as many turns where nothing fails.
pub open spec fn played(job: JobView, world: World, now: Seq<char>, turns: nat) -> (JobView, World)
    decreases turns,
{
    if turns == 0 {
        (job, world)
    } else {
        let (after, event) = answer(world, job.asks());
        played(job.next(event, now), after, now, (turns - 1) as nat)
    }
}

/// How a publication comes out.
pub enum Outcome {
    /// The candidate is published.
    Published,
    /// Every name leads again to what it led to before, and the attempt is in the state told.
    Returned(AttemptState),
}

/// True when the directories of the candidate, the exchange slot and the published name exist.
pub open spec fn housed(p: PublicationView) -> bool {
    &&& path::parent_of(p.candidate_dir) is Some
    &&& path::parent_of(p.exchange_dir) is Some
    &&& path::parent_of(p.published_dir) is Some
}

/// True when a finished candidate can be published: it is there, it stands on the file system of the
/// directories it moves between, and no older generation stands beside a missing published one.
pub open spec fn publishable(world: World, p: PublicationView) -> bool {
    let candidate = lookup(world, p.candidate_dir);
    let public = lookup(world, path::parent_of(p.published_dir)->0);
    let private = lookup(world, path::parent_of(p.exchange_dir)->0);
    &&& candidate is Some && public is Some && private is Some
    &&& (candidate->0).device == (public->0).device
    &&& (candidate->0).device == (private->0).device
    &&& lookup(world, p.published_dir) is None ==> lookup(world, p.exchange_dir) is None
}

/// What stood under the candidate's name, the published name and in the exchange slot before
/// anything was moved.
pub struct Origin {
    pub candidate: Option<FileIdentity>,
    pub published: Option<FileIdentity>,
    pub previous: Option<FileIdentity>,
}

/// What stands under the names of a publication.
pub open spec fn standing(world: World, p: PublicationView) -> Origin {
    Origin {
        candidate: lookup(world, p.candidate_dir),
        published: lookup(world, p.published_dir),
        previous: lookup(world, p.exchange_dir),
    }
}

/// What a prepared publication says stood under its names.
pub open spec fn recorded(p: PublicationView) -> Origin {
    Origin {
        candidate: p.candidate_identity,
        published: p.published_identity,
        previous: p.stable_previous_identity,
    }
}

/// True when a job is on its way to an outcome, or there.
pub open spec fn heads_for(job: JobView, world: World, origin: Origin, outcome: Outcome) -> bool {
    let p = job.publication();
    &&& job.record.publication is Some
    &&& housed(p)
    &&& job.purpose != Purpose::Settle
    &&& match job.stage {
        Stage::Validating | Stage::Surveying => publishable(world, p) && standing(world, p) == origin,
        Stage::Persisting(Change::Preparing(survey)) => origin == (Origin {
            candidate: Some(survey.candidate),
            published: survey.published,
            previous: survey.exchange,
        }),
        _ => recorded(p) == origin,
    }
    &&& match outcome {
        Outcome::Published => match job.stage {
            Stage::Finished(error) => {
                &&& error is None
                &&& p.phase is CommittedPendingReport
                &&& job.record.state is Succeeded
            },
            Stage::Persisting(change) => match change {
                Change::Preparing(_) | Change::Ready(_) => !job.record.cancel_requested,
                Change::Committed(_) | Change::Settled(_) => true,
                _ => false,
            },
            Stage::SeeingCandidate(_)
            | Stage::ReturningCandidate(_)
            | Stage::SeeingPrevious(_)
            | Stage::ReturningPrevious(_)
            | Stage::SyncingRestored(_) => false,
            Stage::SeeingVisible | Stage::SyncingVisible => true,
            Stage::SeeingOutcome => !job.record.cancel_requested || shown(world, p),
            _ => !job.record.cancel_requested,
        },
        Outcome::Returned(state) => match job.stage {
            Stage::Finished(error) => {
                &&& error is None
                &&& p.phase is Executing
                &&& job.record.state == state
                &&& untouched(world, p)
            },
            Stage::Persisting(change) => match change {
                Change::Preparing(_) | Change::Ready(_) => job.record.cancel_requested && state is Cancelled,
                Change::Intent(ending) => ending.state == state && !ending.unprepared,
                Change::Restored(ending, _) => ending.state == state && !ending.unprepared,
                _ => false,
            },
            Stage::SeeingCandidate(ending)
            | Stage::ReturningCandidate(ending)
            | Stage::SeeingPrevious(ending)
            | Stage::ReturningPrevious(ending)
            | Stage::SyncingRestored(ending) => ending.state == state && !ending.unprepared,
            Stage::SeeingReady | Stage::MakingVisible | Stage::SeeingVisible | Stage::SyncingVisible => false,
            Stage::SeeingOutcome => job.record.cancel_requested && state is Cancelled && in_slot(world, p),
            _ => job.record.cancel_requested && state is Cancelled,
        },
    }
}

/// How many turns a stage is away from the end, at most.
pub open spec fn turns_left(stage: Stage<Seq<char>>) -> nat {
    match stage {
        Stage::Validating => 20,
        Stage::Surveying => 19,
        Stage::Persisting(change) => match change {
            Change::Preparing(_) => 18,
            Change::Ready(_) => 10,
            Change::Intent(_) => 9,
            Change::Pending | Change::Committed(_) | Change::Settled(_) => 5,
            Change::Restored(_, _) => 3,
        },
        Stage::CreatingGc => 17,
        Stage::SeeingRotation => 16,
        Stage::Rotating => 15,
        Stage::SeeingStaging => 14,
        Stage::Staging => 13,
        Stage::SyncingPrepared => 12,
        Stage::SeeingRotated => 11,
        Stage::SeeingOutcome => 10,
        Stage::SeeingReady => 9,
        Stage::MakingVisible => 8,
        Stage::SeeingVisible => 7,
        Stage::SyncingVisible => 6,
        Stage::SeeingCandidate(_) => 8,
        Stage::ReturningCandidate(_) => 7,
        Stage::SeeingPrevious(_) => 6,
        Stage::ReturningPrevious(_) => 5,
        Stage::SyncingRestored(_) => 4,
        Stage::Finished(_) => 0,
    }
}

/// One turn where nothing fails brings a job nearer to its outcome.
#[verifier::rlimit(80)]
proof fn lemma_turn(job: JobView, world: World, origin: Origin, outcome: Outcome, now: Seq<char>)
    requires
        in_order(job, world),
        heads_for(job, world, origin, outcome),
        !(job.stage is Finished),
    ensures
        ({
            let (after, event) = answer(world, job.asks());
            let next = job.next(event, now);
            &&& in_order(next, after)
            &&& heads_for(next, after, origin, outcome)
            &&& turns_left(next.stage) < turns_left(job.stage)
        }),
{
    let (after, event) = answer(world, job.asks());
    assert(comes_of(world, job.asks(), after, event));
    law_publications_stay_in_order(job, world, after, event, now);
}

proof fn lemma_played(
    job: JobView,
    world: World,
    origin: Origin,
    outcome: Outcome,
    now: Seq<char>,
    turns: nat,
)
    requires
        in_order(job, world),
        heads_for(job, world, origin, outcome),
        turns_left(job.stage) <= turns,
    ensures
        ({
            let (last, after) = played(job, world, now, turns);
            &&& last.stage is Finished
            &&& in_order(last, after)
            &&& heads_for(last, after, origin, outcome)
        }),
    decreases turns,
{
    let (after, event) = answer(world, job.asks());
    if job.stage is Finished {
        if turns > 0 {
            assert(job.next(event, now) == job);
            lemma_played(job, world, origin, outcome, now, (turns - 1) as nat);
        }
    } else {
        lemma_turn(job, world, origin, outcome, now);
        lemma_played(job.next(event, now), after, origin, outcome, now, (turns - 1) as nat);
    }
}

/// True when a record's publication has come to its end with the candidate published: the record
/// says so, the published name leads to the candidate, what was published before it stands in the
/// exchange slot, and what stood there is kept as the older generation.
pub open spec fn came_out_published(job: JobView, world: World, origin: Origin) -> bool {
    let p = job.publication();
    &&& job.stage == Stage::<Seq<char>>::Finished(None)
    &&& job.record.state is Succeeded
    &&& p.phase is CommittedPendingReport
    &&& lookup(world, p.published_dir) == origin.candidate
    &&& lookup(world, p.exchange_dir) == origin.published
    &&& lookup(world, p.candidate_dir) is None
    &&& origin.previous is Some ==> lookup(world, p.rotated_previous_path->0) == origin.previous
}

/// True when a record's publication has been taken back: the attempt is in the state told, and every
/// name leads to what it led to before.
pub open spec fn came_out_returned(job: JobView, world: World, origin: Origin, state: AttemptState) -> bool {
    &&& job.stage == Stage::<Seq<char>>::Finished(None)
    &&& job.record.state == state
    &&& job.publication().phase is Executing
    &&& standing(world, job.publication()) == origin
}

/// A finished candidate of an attempt that nobody cancelled is published: the published name leads
/// to it, and the generations before it are kept. One that was cancelled is taken back.
pub proof fn law_commits_publish(record: RecordView, world: World, now: Seq<char>)
    requires
        record.sequence < u64::MAX,
        record.publication is Some,
        record.publication->0.phase is Executing,
        record.finished_at is None,
        unaliased(world),
        unstarted(record, world),
        housed(record.publication->0),
        publishable(world, record.publication->0),
    ensures
        ({
            let (last, after) = played(begun(record, Purpose::Commit, now), world, now, 20);
            if record.cancel_requested {
                came_out_returned(last, after, standing(world, record.publication->0), AttemptState::Cancelled)
            } else {
                came_out_published(last, after, standing(world, record.publication->0))
            }
        }),
{
    let outcome = if record.cancel_requested {
        Outcome::Returned(AttemptState::Cancelled)
    } else {
        Outcome::Published
    };
    law_publications_begin_in_order(record, Purpose::Commit, world, now);
    lemma_played(begun(record, Purpose::Commit, now), world, standing(world, record.publication->0), outcome, now, 20);
}

/// Wherever the agent was interrupted before the candidate was to be taken back, recovery publishes
/// it, unless the attempt was cancelled while the candidate was private: then every name leads again
/// to what it led to before.
pub proof fn law_recovery_finishes(record: RecordView, world: World, now: Seq<char>)
    requires
        record.sequence < u64::MAX,
        record.publication is Some,
        record.publication->0.phase.unsettled(),
        !(record.publication->0.phase is PreVisibilityRecovery),
        unaliased(world),
        coherent(record, world),
        housed(record.publication->0),
    ensures
        ({
            let (last, after) = played(begun(record, Purpose::Recover, now), world, now, 20);
            if record.cancel_requested && hidden(world, record.publication->0) {
                came_out_returned(last, after, recorded(record.publication->0), AttemptState::Cancelled)
            } else {
                came_out_published(last, after, recorded(record.publication->0))
            }
        }),
{
    let outcome = if record.cancel_requested && hidden(world, record.publication->0) {
        Outcome::Returned(AttemptState::Cancelled)
    } else {
        Outcome::Published
    };
    law_publications_begin_in_order(record, Purpose::Recover, world, now);
    lemma_played(begun(record, Purpose::Recover, now), world, recorded(record.publication->0), outcome, now, 20);
}

/// Wherever the agent was interrupted while a candidate was taken back, recovery takes it back, and
/// the attempt ends as was intended.
pub proof fn law_recovery_returns(record: RecordView, world: World, now: Seq<char>)
    requires
        record.sequence < u64::MAX,
        record.publication is Some,
        record.publication->0.phase is PreVisibilityRecovery,
        unaliased(world),
        coherent(record, world),
        housed(record.publication->0),
    ensures
        ({
            let (last, after) = played(begun(record, Purpose::Recover, now), world, now, 20);
            came_out_returned(last, after, recorded(record.publication->0), intended(record.publication->0).state)
        }),
{
    let outcome = Outcome::Returned(intended(record.publication->0).state);
    law_publications_begin_in_order(record, Purpose::Recover, world, now);
    lemma_played(begun(record, Purpose::Recover, now), world, recorded(record.publication->0), outcome, now, 20);
}

/// A candidate that was ready when the agent was interrupted waits, untouched, until the server has
/// been asked for cancellations.
pub proof fn law_ready_candidates_wait_for_the_server(record: RecordView, now: Seq<char>)
    requires
        record.publication is Some,
        record.publication->0.phase is ReadyToCommit,
    ensures
        begun(record, Purpose::Settle, now).stage == Stage::<Seq<char>>::Finished(None),
        begun(record, Purpose::Settle, now).record == record,
{
}

} // verus!
