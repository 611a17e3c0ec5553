//! The publication of a finished candidate: what is to be done next, step by step, so that the
//! published directory changes at once and every interruption can be recovered from.
use super::spool::EndView;
use super::spool::FileIdentity;
use super::spool::PublicationPhase;
use super::spool::PublicationState;
use super::spool::PublicationView;
use super::spool::RecordView;
use super::spool::SpoolRecord;
use crate::domain::state::AttemptState;
use crate::domain::state::FailureKind;
use crate::path;
use crate::text;
use vstd::prelude::*;

verus! {

/// What stood under the names of a publication when it was prepared.
#[derive(Clone, Copy, Debug, PartialEq, Eq, Structural)]
pub struct Survey {
    pub candidate: FileIdentity,
    pub published: Option<FileIdentity>,
    pub exchange: Option<FileIdentity>,
}

/// How an attempt ends whose candidate is taken back.
#[derive(Debug, PartialEq, Eq)]
pub struct Ending<T> {
    pub state: AttemptState,
    pub kind: Option<FailureKind>,
    pub message: T,
    /// True when the candidate could not be brought into the exchange slot.
    pub unprepared: bool,
}

/// What the next write of the record changes.
#[derive(Debug, PartialEq, Eq)]
pub enum Change<T> {
    Preparing(Survey),
    Ready(Option<FileIdentity>),
    Intent(Ending<T>),
    Pending,
    Committed(T),
    Restored(Ending<T>, T),
    Settled(T),
}

/// What a publication waits for.
#[derive(Debug, PartialEq, Eq)]
pub enum Stage<T> {
    Validating,
    Surveying,
    Persisting(Change<T>),
    CreatingGc,
    SeeingRotation,
    Rotating,
    SeeingStaging,
    Staging,
    SyncingPrepared,
    SeeingRotated,
    SeeingReady,
    MakingVisible,
    SeeingVisible,
    SyncingVisible,
    SeeingOutcome,
    SeeingCandidate(Ending<T>),
    ReturningCandidate(Ending<T>),
    SeeingPrevious(Ending<T>),
    ReturningPrevious(Ending<T>),
    SyncingRestored(Ending<T>),
    Finished(Option<T>),
}

/// Why a publication is worked on.
#[derive(Clone, Copy, Debug, PartialEq, Eq, Structural)]
pub enum Purpose {
    /// The candidate is finished.
    Commit,
    /// The agent was interrupted and the server has been asked for cancellations.
    Recover,
    /// The agent was interrupted and has not reached the server yet.
    Settle,
}

/// What is to be done for a publication.
#[derive(Debug, PartialEq, Eq)]
pub enum Action {
    /// See that the candidate is a directory and the published name can be exchanged.
    Validate { candidate: String, published: String },
    /// Look up what each of the names leads to.
    Observe(Vec<String>),
    CreateDirectory(String),
    /// Move an entry to a name that is free.
    Rename { from: String, to: String },
    /// Let two names change places.
    Exchange { left: String, right: String },
    /// Make the entries of the directories durable.
    Sync(Vec<String>),
    /// Write the proposed record.
    Persist,
    /// Nothing: the publication has come to its end, or to the error told.
    Finish(Option<String>),
}

/// What came of an action.
#[derive(Debug, PartialEq, Eq)]
pub enum Event {
    Done,
    Failed(String),
    Seen(Vec<Result<Option<FileIdentity>, String>>),
}

/// What an action asks for.
pub enum ActionView {
    Validate { candidate: Seq<char>, published: Seq<char> },
    Observe(Seq<Seq<char>>),
    CreateDirectory(Seq<char>),
    Rename { from: Seq<char>, to: Seq<char> },
    Exchange { left: Seq<char>, right: Seq<char> },
    Sync(Seq<Seq<char>>),
    Persist,
    Finish(Option<Seq<char>>),
}

impl Action {
    /// What the action asks for.
    pub open spec fn view(&self) -> ActionView {
        match *self {
            Action::Validate { candidate, published } => ActionView::Validate {
                candidate: candidate@,
                published: published@,
            },
            Action::Observe(names) => ActionView::Observe(text::views(names@)),
            Action::CreateDirectory(name) => ActionView::CreateDirectory(name@),
            Action::Rename { from, to } => ActionView::Rename { from: from@, to: to@ },
            Action::Exchange { left, right } => ActionView::Exchange { left: left@, right: right@ },
            Action::Sync(names) => ActionView::Sync(text::views(names@)),
            Action::Persist => ActionView::Persist,
            Action::Finish(error) => ActionView::Finish(text::opt_view(error)),
        }
    }
}

/// What came of looking up one name.
pub type SeenView = Result<Option<FileIdentity>, Seq<char>>;

/// What came of looking up one name.
pub open spec fn seen_view(seen: Result<Option<FileIdentity>, String>) -> SeenView {
    match seen {
        Ok(identity) => Ok(identity),
        Err(message) => Err(message@),
    }
}

/// What came of an action.
pub enum EventView {
    Done,
    Failed(Seq<char>),
    Seen(Seq<SeenView>),
}

impl Event {
    /// What the event tells.
    pub open spec fn view(&self) -> EventView {
        match *self {
            Event::Done => EventView::Done,
            Event::Failed(message) => EventView::Failed(message@),
            Event::Seen(seen) => EventView::Seen(Seq::new(seen@.len(), |i: int| seen_view(seen@[i]))),
        }
    }
}

/// The ending with the text of its message.
pub open spec fn ending_view(ending: Ending<String>) -> Ending<Seq<char>> {
    Ending {
        state: ending.state,
        kind: ending.kind,
        message: ending.message@,
        unprepared: ending.unprepared,
    }
}

/// The change with its texts.
pub open spec fn change_view(change: Change<String>) -> Change<Seq<char>> {
    match change {
        Change::Preparing(survey) => Change::Preparing(survey),
        Change::Ready(rotated) => Change::Ready(rotated),
        Change::Intent(ending) => Change::Intent(ending_view(ending)),
        Change::Pending => Change::Pending,
        Change::Committed(now) => Change::Committed(now@),
        Change::Restored(ending, now) => Change::Restored(ending_view(ending), now@),
        Change::Settled(now) => Change::Settled(now@),
    }
}

/// The stage with its texts.
pub open spec fn stage_view(stage: Stage<String>) -> Stage<Seq<char>> {
    match stage {
        Stage::Validating => Stage::Validating,
        Stage::Surveying => Stage::Surveying,
        Stage::Persisting(change) => Stage::Persisting(change_view(change)),
        Stage::CreatingGc => Stage::CreatingGc,
        Stage::SeeingRotation => Stage::SeeingRotation,
        Stage::Rotating => Stage::Rotating,
        Stage::SeeingStaging => Stage::SeeingStaging,
        Stage::Staging => Stage::Staging,
        Stage::SyncingPrepared => Stage::SyncingPrepared,
        Stage::SeeingRotated => Stage::SeeingRotated,
        Stage::SeeingReady => Stage::SeeingReady,
        Stage::MakingVisible => Stage::MakingVisible,
        Stage::SeeingVisible => Stage::SeeingVisible,
        Stage::SyncingVisible => Stage::SyncingVisible,
        Stage::SeeingOutcome => Stage::SeeingOutcome,
        Stage::SeeingCandidate(ending) => Stage::SeeingCandidate(ending_view(ending)),
        Stage::ReturningCandidate(ending) => Stage::ReturningCandidate(ending_view(ending)),
        Stage::SeeingPrevious(ending) => Stage::SeeingPrevious(ending_view(ending)),
        Stage::ReturningPrevious(ending) => Stage::ReturningPrevious(ending_view(ending)),
        Stage::SyncingRestored(ending) => Stage::SyncingRestored(ending_view(ending)),
        Stage::Finished(error) => Stage::Finished(text::opt_view(error)),
    }
}

/// The record of a publication and what the publication waits for.
#[derive(Debug, PartialEq, Eq)]
pub struct Job {
    pub record: SpoolRecord,
    pub purpose: Purpose,
    pub stage: Stage<String>,
}

/// What a job holds.
pub struct JobView {
    pub record: RecordView,
    pub purpose: Purpose,
    pub stage: Stage<Seq<char>>,
}

impl Job {
    /// What the job holds.
    pub open spec fn view(&self) -> JobView {
        JobView { record: self.record@, purpose: self.purpose, stage: stage_view(self.stage) }
    }
}

/// The name to which a record's publication moves the generation before the published one.
pub open spec fn rotated_path(record: RecordView) -> Seq<char> {
    path::join_path(
        record.publication->0.gc_dir,
        "previous-"@ + record.run_id + "-"@ + text::decimal(record.attempt as nat),
    )
}

/// The record once a change has been made.
pub open spec fn changed(record: RecordView, change: Change<Seq<char>>) -> RecordView {
    let publication = record.publication->0;
    match change {
        Change::Preparing(survey) => RecordView {
            publication: Some(
                PublicationView {
                    phase: PublicationPhase::PreparingExchange,
                    candidate_identity: Some(survey.candidate),
                    published_identity: survey.published,
                    stable_previous_identity: survey.exchange,
                    exchange_identity: survey.exchange,
                    rotated_previous_path: match survey.exchange {
                        Some(_) => Some(rotated_path(record)),
                        None => None,
                    },
                    rotated_previous_identity: None,
                    pre_visibility_terminal_state: None,
                    pre_visibility_failure_kind: None,
                    pre_visibility_message: None,
                    ..publication
                },
            ),
            ..record
        },
        Change::Ready(rotated) => RecordView {
            publication: Some(
                PublicationView {
                    phase: PublicationPhase::ReadyToCommit,
                    exchange_identity: publication.candidate_identity,
                    rotated_previous_identity: rotated,
                    ..publication
                },
            ),
            ..record
        },
        Change::Intent(ending) => RecordView {
            publication: Some(
                PublicationView {
                    phase: PublicationPhase::PreVisibilityRecovery,
                    pre_visibility_terminal_state: Some(ending.state),
                    pre_visibility_failure_kind: ending.kind,
                    pre_visibility_message: Some(ending.message),
                    ..publication
                },
            ),
            ..record
        },
        Change::Pending => in_phase(record, PublicationPhase::VisiblePendingDurability),
        Change::Committed(now) => succeeded(in_phase(record, PublicationPhase::CommittedPendingReport), now),
        Change::Restored(ending, now) => RecordView {
            publication: Some(
                PublicationView {
                    phase: PublicationPhase::Executing,
                    pre_visibility_terminal_state: None,
                    pre_visibility_failure_kind: None,
                    pre_visibility_message: None,
                    ..publication
                },
            ),
            ..record
        }.ended(
            EndView {
                state: ending.state,
                exit_code: None,
                kind: ending.kind,
                message: Some(ending.message),
            },
            now,
        ),
        Change::Settled(now) => succeeded(record, now),
    }
}

/// The record with its publication in the phase told.
pub open spec fn in_phase(record: RecordView, phase: PublicationPhase) -> RecordView {
    RecordView { publication: Some(PublicationView { phase, ..record.publication->0 }), ..record }
}

/// The record of an attempt that has succeeded.
pub open spec fn succeeded(record: RecordView, now: Seq<char>) -> RecordView {
    record.ended(
        EndView { state: AttemptState::Succeeded, exit_code: Some(0), kind: None, message: None },
        now,
    )
}

/// Makes a change.
pub fn apply_change(record: &mut SpoolRecord, change: &Change<String>)
    requires
        old(record).publication is Some,
        old(record).sequence < u64::MAX,
    ensures
        final(record)@ == changed(old(record)@, change_view(*change)),
{
    let mut publication: PublicationState = match &record.publication {
        Some(publication) => publication.clone(),
        None => {
            return ;
        },
    };
    match change {
        Change::Preparing(survey) => {
            publication.phase = PublicationPhase::PreparingExchange;
            publication.candidate_identity = Some(survey.candidate);
            publication.published_identity = survey.published;
            publication.stable_previous_identity = survey.exchange;
            publication.exchange_identity = survey.exchange;
            publication.rotated_previous_path = match survey.exchange {
                Some(_) => {
                    let number: String = text::decimal_text(record.attempt as u64);
                    let name: String = text::join4("previous-", record.run_id.as_str(), "-", number.as_str());
                    Some(path::join(publication.gc_dir.as_str(), name.as_str()))
                },
                None => None,
            };
            publication.rotated_previous_identity = None;
            publication.pre_visibility_terminal_state = None;
            publication.pre_visibility_failure_kind = None;
            publication.pre_visibility_message = None;
            record.publication = Some(publication);
        },
        Change::Ready(rotated) => {
            publication.phase = PublicationPhase::ReadyToCommit;
            publication.exchange_identity = publication.candidate_identity;
            publication.rotated_previous_identity = *rotated;
            record.publication = Some(publication);
        },
        Change::Intent(ending) => {
            publication.phase = PublicationPhase::PreVisibilityRecovery;
            publication.pre_visibility_terminal_state = Some(ending.state);
            publication.pre_visibility_failure_kind = ending.kind;
            publication.pre_visibility_message = Some(ending.message.clone());
            record.publication = Some(publication);
        },
        Change::Pending => {
            publication.phase = PublicationPhase::VisiblePendingDurability;
            record.publication = Some(publication);
        },
        Change::Committed(now) => {
            publication.phase = PublicationPhase::CommittedPendingReport;
            record.publication = Some(publication);
            record.terminal(AttemptState::Succeeded, Some(0), None, None, now.clone());
        },
        Change::Restored(ending, now) => {
            publication.phase = PublicationPhase::Executing;
            publication.pre_visibility_terminal_state = None;
            publication.pre_visibility_failure_kind = None;
            publication.pre_visibility_message = None;
            record.publication = Some(publication);
            record.terminal(ending.state, None, ending.kind, Some(ending.message.clone()), now.clone());
        },
        Change::Settled(now) => {
            record.terminal(AttemptState::Succeeded, Some(0), None, None, now.clone());
        },
    }
}

/// What is kept of a publication says how far it came: prepared with what was seen, ready with the candidate
/// in the slot, being put back with the end that it will have, visible, committed with success; and once it was
/// put back the attempt has that end and nothing rests on the record any more.
pub proof fn law_records_say_how_far_it_came(
    record: RecordView,
    survey: Survey,
    rotated: Option<FileIdentity>,
    ending: Ending<Seq<char>>,
    now: Seq<char>,
)
    requires
        record.publication is Some,
        record.sequence < u64::MAX,
    ensures
        ({
            let p = changed(record, Change::Preparing(survey)).publication->0;
            &&& p.phase == PublicationPhase::PreparingExchange
            &&& p.candidate_identity == Some(survey.candidate)
            &&& p.published_identity == survey.published
            &&& p.stable_previous_identity == survey.exchange
            &&& p.rotated_previous_path is Some <==> survey.exchange is Some
            &&& changed(record, Change::Preparing(survey)).state == record.state
            &&& changed(record, Change::Preparing(survey)).sequence == record.sequence
        }),
        ({
            let p = changed(record, Change::Ready(rotated)).publication->0;
            &&& p.phase == PublicationPhase::ReadyToCommit
            &&& p.candidate_identity == record.publication->0.candidate_identity
            &&& p.exchange_identity == record.publication->0.candidate_identity
            &&& p.rotated_previous_identity == rotated
            &&& changed(record, Change::Ready(rotated)).state == record.state
        }),
        ({
            let p = changed(record, Change::Intent(ending)).publication->0;
            &&& p.phase == PublicationPhase::PreVisibilityRecovery
            &&& p.pre_visibility_terminal_state == Some(ending.state)
            &&& p.pre_visibility_failure_kind == ending.kind
            &&& p.pre_visibility_message == Some(ending.message)
            &&& changed(record, Change::Intent(ending)).state == record.state
        }),
        ({
            let after = changed(record, Change::Pending);
            &&& after.publication->0.phase == PublicationPhase::VisiblePendingDurability
            &&& after.state == record.state
            &&& after.publication->0.candidate_identity == record.publication->0.candidate_identity
        }),
        ({
            let after = changed(record, Change::Committed(now));
            &&& after.publication->0.phase == PublicationPhase::CommittedPendingReport
            &&& after.state == AttemptState::Succeeded
            &&& after.exit_code == Some(0i32)
            &&& after.failure_kind is None
            &&& after.finished_at == Some(now)
            &&& after.sequence == record.sequence + 1
            &&& !after.disposable()
        }),
        ({
            let after = changed(record, Change::Restored(ending, now));
            &&& after.publication->0.phase == PublicationPhase::Executing
            &&& after.publication->0.pre_visibility_terminal_state is None
            &&& after.state == ending.state
            &&& after.failure_kind == ending.kind
            &&& after.failure_message == Some(ending.message)
            &&& after.exit_code is None
            &&& after.finished_at == Some(now)
            &&& after.sequence == record.sequence + 1
        }),
        ({
            let after = changed(record, Change::Settled(now));
            &&& after.state == AttemptState::Succeeded
            &&& after.publication == record.publication
            &&& after.sequence == record.sequence + 1
        }),
{
}

} // verus!
