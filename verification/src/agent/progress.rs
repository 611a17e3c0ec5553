//! The course of a publication: where it begins, what it asks for at each stage, and where each
//! answer leads.
use super::publication::apply_change;
use super::publication::changed;
use super::publication::Action;
use super::publication::ActionView;
use super::publication::Change;
use super::publication::Ending;
use super::publication::Event;
use super::publication::EventView;
use super::publication::Job;
use super::publication::JobView;
use super::publication::Purpose;
use super::publication::SeenView;
use super::publication::ending_view;
use super::publication::change_view;
use super::publication::seen_view;
use super::publication::stage_view;
use super::publication::Stage;
use super::publication::Survey;
use super::spool::FileIdentity;
use super::spool::PublicationPhase;
use super::spool::PublicationState;
use super::spool::PublicationView;
use super::spool::SpoolRecord;
use crate::domain::state::AttemptState;
use crate::domain::state::FailureKind;
use crate::path;
use crate::text;
use vstd::prelude::*;

verus! {

/// An entry as an error names it.
pub open spec fn identity_text(identity: Option<FileIdentity>) -> Seq<char> {
    match identity {
        Some(found) => "Some(FileIdentity { device: "@ + text::decimal(found.device as nat) + ", inode: "@
            + text::decimal(found.inode as nat) + " })"@,
        None => "None"@,
    }
}

fn identity_name(identity: Option<FileIdentity>) -> (r: String)
    ensures
        r@ == identity_text(identity),
{
    match identity {
        Some(found) => {
            let device: String = text::decimal_text(found.device);
            let inode: String = text::decimal_text(found.inode);
            text::join5(
                "Some(FileIdentity { device: ",
                device.as_str(),
                ", inode: ",
                inode.as_str(),
                " })",
            )
        },
        None => "None".to_owned(),
    }
}

/// Two entries as an error names them, behind what went wrong.
pub open spec fn pair_text(problem: Seq<char>, left: Option<FileIdentity>, right: Option<FileIdentity>) -> Seq<char> {
    problem + "("@ + (identity_text(left) + ", "@ + identity_text(right)) + ")"@
}

fn pair_name(problem: &str, left: Option<FileIdentity>, right: Option<FileIdentity>) -> (r: String)
    ensures
        r@ == pair_text(problem@, left, right),
{
    let first: String = identity_name(left);
    let second: String = identity_name(right);
    let both: String = text::join3(first.as_str(), ", ", second.as_str());
    text::join4(problem, "(", both.as_str(), ")")
}

/// The error for a name without a directory to hold it.
pub open spec fn no_parent(name: Seq<char>) -> Seq<char> {
    "path "@ + name + " has no parent"@
}

impl JobView {
    /// The publication worked on.
    pub open spec fn publication(self) -> PublicationView {
        self.record.publication->0
    }

    /// The job at another stage.
    pub open spec fn at(self, stage: Stage<Seq<char>>) -> JobView {
        JobView { stage, ..self }
    }

    /// The job stopped by an error.
    pub open spec fn stopped(self, error: Seq<char>) -> JobView {
        self.at(Stage::Finished(Some(error)))
    }

    /// The job at its end.
    pub open spec fn done(self) -> JobView {
        self.at(Stage::Finished(None))
    }

    /// True of a job that can go on: it has a publication, and its record can take one more report.
    pub open spec fn workable(self) -> bool {
        self.record.publication is Some && self.record.sequence < u64::MAX
    }

    /// True of a job whose stage rests on what its record holds.
    pub open spec fn sound(self) -> bool {
        self.stage is Finished || {
            &&& self.workable()
            &&& match self.stage {
                Stage::SeeingRotation => self.publication().candidate_identity is Some && (
                self.publication().stable_previous_identity is Some
                    ==> self.publication().rotated_previous_path is Some),
                Stage::Rotating => self.publication().candidate_identity is Some
                    && self.publication().rotated_previous_path is Some,
                Stage::SeeingRotated => self.publication().rotated_previous_path is Some,
                Stage::SeeingPrevious(_)
                | Stage::ReturningPrevious(_) => self.publication().candidate_identity is Some
                    && self.publication().stable_previous_identity is Some
                    && self.publication().rotated_previous_path is Some,
                Stage::SyncingRestored(_) => self.parented(),
                Stage::CreatingGc
                | Stage::SeeingStaging
                | Stage::Staging
                | Stage::SeeingReady
                | Stage::SeeingVisible
                | Stage::SeeingOutcome
                | Stage::SeeingCandidate(_)
                | Stage::ReturningCandidate(_) => self.publication().candidate_identity is Some,
                Stage::SyncingPrepared => self.parented(),
                Stage::SyncingVisible => path::parent_of(self.publication().published_dir) is Some
                    && path::parent_of(self.publication().exchange_dir) is Some,
                _ => true,
            }
        }
    }

    /// True when directories hold the candidate and the exchange slot.
    pub open spec fn parented(self) -> bool {
        path::parent_of(self.publication().candidate_dir) is Some && path::parent_of(
            self.publication().exchange_dir,
        ) is Some
    }

    /// The entries are put back where they were before the attempt ends as told.
    pub open spec fn restoring(self, ending: Ending<Seq<char>>) -> JobView {
        if self.publication().phase is PreVisibilityRecovery {
            self.returning(ending)
        } else {
            self.at(Stage::Persisting(Change::Intent(ending)))
        }
    }

    /// The candidate is looked for.
    pub open spec fn returning(self, ending: Ending<Seq<char>>) -> JobView {
        if self.publication().candidate_identity is None {
            self.stopped("publication lacks candidate identity"@)
        } else {
            self.at(Stage::SeeingCandidate(ending))
        }
    }

    /// The candidate is back; the generation before the published one is looked for.
    pub open spec fn returned(self, ending: Ending<Seq<char>>) -> JobView {
        if self.publication().stable_previous_identity is Some && self.publication().rotated_previous_path is None {
            self.stopped("publication lacks previous rotation path"@)
        } else if self.publication().stable_previous_identity is Some {
            self.at(Stage::SeeingPrevious(ending))
        } else {
            self.restored(ending)
        }
    }

    /// Every entry is back; the directories are made durable.
    pub open spec fn restored(self, ending: Ending<Seq<char>>) -> JobView {
        if path::parent_of(self.publication().candidate_dir) is None {
            self.stopped(no_parent(self.publication().candidate_dir))
        } else if path::parent_of(self.publication().exchange_dir) is None {
            self.stopped(no_parent(self.publication().exchange_dir))
        } else {
            self.at(Stage::SyncingRestored(ending))
        }
    }

    /// The candidate could not be brought into the exchange slot.
    pub open spec fn unprepared(self, problem: Seq<char>) -> JobView {
        self.restoring(
            Ending {
                state: AttemptState::Failed,
                kind: Some(FailureKind::InvalidResult),
                message: problem,
                unprepared: true,
            },
        )
    }

    /// The candidate stands in the exchange slot but must not become visible.
    pub open spec fn refused(self, problem: Seq<char>) -> JobView {
        self.restoring(
            Ending {
                state: AttemptState::Failed,
                kind: Some(FailureKind::InvalidResult),
                message: problem,
                unprepared: false,
            },
        )
    }

    /// The private names are prepared.
    pub open spec fn preparing(self) -> JobView {
        if self.publication().candidate_identity is None {
            self.unprepared("preparing_exchange lacks candidate identity"@)
        } else {
            self.at(Stage::CreatingGc)
        }
    }

    /// The exchange slot is looked at.
    pub open spec fn clearing(self) -> JobView {
        if self.publication().stable_previous_identity is Some && self.publication().rotated_previous_path is None {
            self.unprepared("preparing_exchange lacks planned previous rotation path"@)
        } else {
            self.at(Stage::SeeingRotation)
        }
    }

    /// Where it leads that the exchange slot and the name of the older generation hold what was
    /// seen: the generation before the published one leaves the slot, unless it has left it, or the
    /// candidate has taken its place.
    pub open spec fn cleared(self, exchange: SeenView, rotated: SeenView) -> JobView {
        let publication = self.publication();
        match publication.stable_previous_identity {
            Some(previous) => match (exchange, rotated) {
                (Err(error), _) => self.unprepared(error),
                (_, Err(error)) => self.unprepared(error),
                (Ok(slot), Ok(older)) => if slot == Some(previous) && older is None {
                    self.at(Stage::Rotating)
                } else if (slot is None && older == Some(previous)) || (slot is Some && slot
                    == publication.candidate_identity) {
                    self.at(Stage::SeeingStaging)
                } else {
                    self.unprepared(
                        pair_text(
                            "cannot reconstruct stable previous rotation from identities: "@,
                            slot,
                            older,
                        ),
                    )
                },
            },
            None => match exchange {
                Err(error) => self.unprepared(error),
                Ok(slot) => if slot is Some && slot != publication.candidate_identity {
                    self.unprepared("unexpected exchange entry appeared during first publication"@)
                } else {
                    self.at(Stage::SeeingStaging)
                },
            },
        }
    }

    /// Where it leads that the candidate's name and the exchange slot hold what was seen: the
    /// candidate enters the slot, unless it has entered it.
    pub open spec fn staged(self, candidate: SeenView, exchange: SeenView) -> JobView {
        let own = self.publication().candidate_identity;
        match (candidate, exchange) {
            (Err(error), _) => self.unprepared(error),
            (_, Err(error)) => self.unprepared(error),
            (Ok(private), Ok(slot)) => if private == own && slot is None {
                self.at(Stage::Staging)
            } else if private is None && slot == own {
                self.prepared()
            } else {
                self.unprepared(
                    pair_text(
                        "cannot stage candidate into fixed exchange slot from identities: "@,
                        private,
                        slot,
                    ),
                )
            },
        }
    }

    /// The candidate stands in the exchange slot; the directories are made durable.
    pub open spec fn prepared(self) -> JobView {
        if path::parent_of(self.publication().candidate_dir) is None {
            self.unprepared(no_parent(self.publication().candidate_dir))
        } else if path::parent_of(self.publication().exchange_dir) is None {
            self.unprepared(no_parent(self.publication().exchange_dir))
        } else {
            self.at(Stage::SyncingPrepared)
        }
    }

    /// A prepared candidate becomes visible, unless the attempt was cancelled.
    pub open spec fn committing(self) -> JobView {
        if !(self.publication().phase is ReadyToCommit) {
            self.stopped("visibility commit requires ready_to_commit phase"@)
        } else if self.record.cancel_requested {
            self.restoring(
                Ending {
                    state: AttemptState::Cancelled,
                    kind: None,
                    message: "cancelled before visibility"@,
                    unprepared: false,
                },
            )
        } else if self.publication().candidate_identity is None {
            self.refused("ready_to_commit lacks candidate identity"@)
        } else {
            self.at(Stage::SeeingReady)
        }
    }

    /// Where it leads that the exchange slot, the published name and the name of the older
    /// generation hold what was seen: the candidate becomes visible when each holds what the record
    /// says.
    pub open spec fn checked(self, seen: Seq<SeenView>) -> JobView {
        let publication = self.publication();
        if seen[0] is Err {
            self.refused(seen[0]->Err_0)
        } else if seen[0]->Ok_0 != publication.candidate_identity {
            self.refused("candidate identity is not in fixed exchange slot"@)
        } else if seen[1] is Err {
            self.refused(seen[1]->Err_0)
        } else if seen[1]->Ok_0 != publication.published_identity {
            self.refused("published identity changed outside LMT"@)
        } else if publication.stable_previous_identity is None {
            self.at(Stage::MakingVisible)
        } else if publication.rotated_previous_path is None {
            self.refused("ready_to_commit lacks previous rotation path"@)
        } else if seen[2] is Err {
            self.refused(seen[2]->Err_0)
        } else if seen[2]->Ok_0 != publication.stable_previous_identity {
            self.refused("stable previous identity is not at its protected rotation path"@)
        } else {
            self.at(Stage::MakingVisible)
        }
    }

    /// The published name is looked at to see whether the candidate is visible.
    pub open spec fn visible(self) -> JobView {
        if self.publication().candidate_identity is None {
            self.stopped("publication lacks candidate identity"@)
        } else {
            self.at(Stage::SeeingVisible)
        }
    }

    /// Where it leads that the published name holds what was seen.
    pub open spec fn proven(self, published: SeenView) -> JobView {
        match published {
            Err(error) => self.stopped(error),
            Ok(found) => if found != self.publication().candidate_identity {
                self.stopped(
                    "candidate identity is not visible at published path; visibility outcome is unresolved"@,
                )
            } else if path::parent_of(self.publication().published_dir) is None {
                self.stopped(no_parent(self.publication().published_dir))
            } else if path::parent_of(self.publication().exchange_dir) is None {
                self.stopped(no_parent(self.publication().exchange_dir))
            } else {
                self.at(Stage::SyncingVisible)
            },
        }
    }

    /// Where it leads, for a candidate that was ready when the agent was interrupted, that the
    /// published name and the exchange slot hold what was seen.
    pub open spec fn resumed(self, published: SeenView, exchange: SeenView) -> JobView {
        let publication = self.publication();
        match (published, exchange) {
            (Err(error), _) => self.stopped(error),
            (_, Err(error)) => self.stopped(error),
            (Ok(public), Ok(slot)) => if public == publication.candidate_identity {
                self.visible()
            } else if slot == publication.candidate_identity && public == publication.published_identity {
                self.committing()
            } else {
                self.refused("ready_to_commit identities are inconsistent"@)
            },
        }
    }

    /// Where it leads that the exchange slot and the candidate's name hold what was seen: the
    /// candidate leaves the slot, if it stands there.
    pub open spec fn found(self, ending: Ending<Seq<char>>, exchange: SeenView, candidate: SeenView) -> JobView {
        match exchange {
            Err(error) => self.stopped(error),
            Ok(slot) => if slot != self.publication().candidate_identity {
                self.returned(ending)
            } else {
                match candidate {
                    Err(error) => self.stopped(error),
                    Ok(Some(_)) => self.stopped("cannot restore candidate because its private path exists"@),
                    Ok(None) => self.at(Stage::ReturningCandidate(ending)),
                }
            },
        }
    }

    /// Where it leads that the exchange slot and the name of the older generation hold what was
    /// seen: the generation before the published one returns to the slot, unless it stands there.
    pub open spec fn refilled(self, ending: Ending<Seq<char>>, exchange: SeenView, rotated: SeenView) -> JobView {
        let previous = self.publication().stable_previous_identity;
        match (exchange, rotated) {
            (Err(error), _) => self.stopped(error),
            (_, Err(error)) => self.stopped(error),
            (Ok(slot), Ok(older)) => if slot is None && older == previous {
                self.at(Stage::ReturningPrevious(ending))
            } else if slot == previous {
                self.restored(ending)
            } else {
                self.stopped(pair_text("cannot restore stable previous identity: "@, slot, older))
            },
        }
    }

    /// Where it leads that the names hold what was seen before anything is moved: the survey is
    /// written down when the candidate and both directories stand on one file system and no older
    /// generation stands beside a missing published one.
    pub open spec fn surveyed(self, seen: Seq<SeenView>) -> JobView {
        let publication = self.publication();
        let public_parent = path::parent_of(publication.published_dir);
        let private_parent = path::parent_of(publication.exchange_dir);
        if !(seen[0] is Ok && seen[0]->Ok_0 is Some) {
            self.stopped("candidate does not exist after sync success"@)
        } else if public_parent is None {
            self.stopped(no_parent(publication.published_dir))
        } else if required(seen[1], public_parent->0) is Err {
            self.stopped(required(seen[1], public_parent->0)->Err_0)
        } else if private_parent is None {
            self.stopped(no_parent(publication.exchange_dir))
        } else if required(seen[2], private_parent->0) is Err {
            self.stopped(required(seen[2], private_parent->0)->Err_0)
        } else if (seen[0]->Ok_0->0).device != (required(seen[1], public_parent->0)->Ok_0).device || (
        seen[0]->Ok_0->0).device != (required(seen[2], private_parent->0)->Ok_0).device {
            self.stopped("candidate, exchange, and published parent are not on one filesystem"@)
        } else if seen[3] is Err {
            self.stopped(seen[3]->Err_0)
        } else if seen[4] is Err {
            self.stopped(seen[4]->Err_0)
        } else if seen[3]->Ok_0 is None && seen[4]->Ok_0 is Some {
            self.stopped("published target is absent while a stable previous generation exists"@)
        } else {
            self.at(
                Stage::Persisting(
                    Change::Preparing(
                        Survey {
                            candidate: seen[0]->Ok_0->0,
                            published: seen[3]->Ok_0,
                            exchange: seen[4]->Ok_0,
                        },
                    ),
                ),
            )
        }
    }
}

/// What a name leads to, or the error for one that leads nowhere.
pub open spec fn required(seen: SeenView, name: Seq<char>) -> Result<FileIdentity, Seq<char>> {
    match seen {
        Ok(Some(identity)) => Ok(identity),
        Ok(None) => Err("stat "@ + name),
        Err(error) => Err(error),
    }
}

/// The directory of a name, or the name itself where none holds it.
pub open spec fn directory_or(name: Seq<char>) -> Seq<char> {
    match path::parent_of(name) {
        Some(directory) => directory,
        None => name,
    }
}

fn directory(name: &str) -> (r: String)
    ensures
        r@ == directory_or(name@),
{
    match path::parent(name) {
        Some(directory) => directory,
        None => name.to_owned(),
    }
}

impl JobView {
    /// What the job asks for.
    pub open spec fn asks(self) -> ActionView {
        let p = self.publication();
        let older = p.rotated_previous_path->0;
        match self.stage {
            Stage::Validating => ActionView::Validate { candidate: p.candidate_dir, published: p.published_dir },
            Stage::Surveying => ActionView::Observe(
                seq![
                    p.candidate_dir,
                    directory_or(p.published_dir),
                    directory_or(p.exchange_dir),
                    p.published_dir,
                    p.exchange_dir,
                ],
            ),
            Stage::Persisting(_) => ActionView::Persist,
            Stage::CreatingGc => ActionView::CreateDirectory(p.gc_dir),
            Stage::SeeingRotation => ActionView::Observe(
                if p.stable_previous_identity is Some {
                    seq![p.exchange_dir, older]
                } else {
                    seq![p.exchange_dir]
                },
            ),
            Stage::Rotating => ActionView::Rename { from: p.exchange_dir, to: older },
            Stage::SeeingStaging => ActionView::Observe(seq![p.candidate_dir, p.exchange_dir]),
            Stage::Staging => ActionView::Rename { from: p.candidate_dir, to: p.exchange_dir },
            Stage::SyncingPrepared => ActionView::Sync(
                seq![directory_or(p.candidate_dir), directory_or(p.exchange_dir), p.gc_dir],
            ),
            Stage::SeeingRotated => ActionView::Observe(seq![older]),
            Stage::SeeingReady => ActionView::Observe(
                if p.stable_previous_identity is Some && p.rotated_previous_path is Some {
                    seq![p.exchange_dir, p.published_dir, older]
                } else {
                    seq![p.exchange_dir, p.published_dir]
                },
            ),
            Stage::MakingVisible => if p.published_identity is Some {
                ActionView::Exchange { left: p.exchange_dir, right: p.published_dir }
            } else {
                ActionView::Rename { from: p.exchange_dir, to: p.published_dir }
            },
            Stage::SeeingVisible => ActionView::Observe(seq![p.published_dir]),
            Stage::SyncingVisible => ActionView::Sync(
                seq![directory_or(p.published_dir), directory_or(p.exchange_dir)],
            ),
            Stage::SeeingOutcome => ActionView::Observe(seq![p.published_dir, p.exchange_dir]),
            Stage::SeeingCandidate(_) => ActionView::Observe(seq![p.exchange_dir, p.candidate_dir]),
            Stage::ReturningCandidate(_) => ActionView::Rename { from: p.exchange_dir, to: p.candidate_dir },
            Stage::SeeingPrevious(_) => ActionView::Observe(seq![p.exchange_dir, older]),
            Stage::ReturningPrevious(_) => ActionView::Rename { from: older, to: p.exchange_dir },
            Stage::SyncingRestored(_) => ActionView::Sync(
                seq![directory_or(p.candidate_dir), directory_or(p.exchange_dir)],
            ),
            Stage::Finished(error) => ActionView::Finish(error),
        }
    }

    /// True of the events that can come of what the job asks for: one answer for each name that is
    /// looked up, and success or an error for anything else.
    pub open spec fn admits(self, event: EventView) -> bool {
        match self.asks() {
            ActionView::Observe(names) => event is Seen && event->Seen_0.len() == names.len(),
            _ => !(event is Seen),
        }
    }

    /// Where a finished write leads.
    pub open spec fn persisted(self, change: Change<Seq<char>>) -> JobView {
        let next = JobView { record: changed(self.record, change), ..self };
        match change {
            Change::Preparing(_) => next.preparing(),
            Change::Ready(_) => if self.purpose == Purpose::Settle {
                next.done()
            } else {
                next.committing()
            },
            Change::Intent(ending) => next.returning(ending),
            Change::Pending => next.stopped("publication visible but directory durability is pending"@),
            Change::Committed(_) | Change::Settled(_) => next.done(),
            Change::Restored(ending, _) => if ending.unprepared && self.purpose == Purpose::Commit {
                next.stopped("visibility commit requires ready_to_commit phase"@)
            } else {
                next.done()
            },
        }
    }

    /// Where a failed write leads.
    pub open spec fn unpersisted(self, change: Change<Seq<char>>, error: Seq<char>) -> JobView {
        match change {
            Change::Preparing(_) => self.stopped("persist preparing_exchange"@),
            Change::Ready(_) => self.unprepared("persist ready_to_commit"@),
            Change::Intent(_) => self.stopped("persist pre-visibility recovery intent"@),
            Change::Pending => self.stopped("publication visible but directory durability is pending"@),
            Change::Committed(_) => self.stopped("persist committed_pending_report before success"@),
            Change::Restored(_, _) | Change::Settled(_) => self.stopped(error),
        }
    }

    /// Where an event leads.
    pub open spec fn next(self, event: EventView, now: Seq<char>) -> JobView {
        match (self.stage, event) {
            (Stage::Validating, EventView::Failed(error)) => self.stopped(error),
            (Stage::Validating, _) => self.at(Stage::Surveying),
            (Stage::Surveying, EventView::Seen(seen)) => self.surveyed(seen),
            (Stage::Persisting(change), EventView::Failed(error)) => self.unpersisted(change, error),
            (Stage::Persisting(change), _) => self.persisted(change),
            (Stage::CreatingGc, EventView::Failed(_)) => self.unprepared("create publication GC directory"@),
            (Stage::CreatingGc, _) => self.clearing(),
            (Stage::SeeingRotation, EventView::Seen(seen)) => self.cleared(seen[0], seen[1]),
            (Stage::Rotating, EventView::Failed(error)) => self.unprepared(error),
            (Stage::Rotating, _) => self.at(Stage::SeeingStaging),
            (Stage::SeeingStaging, EventView::Seen(seen)) => self.staged(seen[0], seen[1]),
            (Stage::Staging, EventView::Failed(error)) => self.unprepared(error),
            (Stage::Staging, _) => self.prepared(),
            (Stage::SyncingPrepared, EventView::Failed(error)) => self.unprepared(error),
            (Stage::SyncingPrepared, _) => if self.publication().rotated_previous_path is Some {
                self.at(Stage::SeeingRotated)
            } else {
                self.at(Stage::Persisting(Change::Ready(None)))
            },
            (Stage::SeeingRotated, EventView::Seen(seen)) => match seen[0] {
                Err(error) => self.unprepared(error),
                Ok(older) => self.at(Stage::Persisting(Change::Ready(older))),
            },
            (Stage::SeeingReady, EventView::Seen(seen)) => self.checked(seen),
            (Stage::MakingVisible, EventView::Failed(error)) => self.stopped(error),
            (Stage::MakingVisible, _) => self.visible(),
            (Stage::SeeingVisible, EventView::Seen(seen)) => self.proven(seen[0]),
            (Stage::SyncingVisible, EventView::Failed(_)) => self.at(Stage::Persisting(Change::Pending)),
            (Stage::SyncingVisible, _) => self.at(Stage::Persisting(Change::Committed(now))),
            (Stage::SeeingOutcome, EventView::Seen(seen)) => self.resumed(seen[0], seen[1]),
            (Stage::SeeingCandidate(ending), EventView::Seen(seen)) => self.found(ending, seen[0], seen[1]),
            (Stage::ReturningCandidate(_), EventView::Failed(error)) => self.stopped(error),
            (Stage::ReturningCandidate(ending), _) => self.returned(ending),
            (Stage::SeeingPrevious(ending), EventView::Seen(seen)) => self.refilled(ending, seen[0], seen[1]),
            (Stage::ReturningPrevious(_), EventView::Failed(error)) => self.stopped(error),
            (Stage::ReturningPrevious(ending), _) => self.restored(ending),
            (Stage::SyncingRestored(_), EventView::Failed(error)) => self.stopped(error),
            (Stage::SyncingRestored(ending), _) => self.at(
                Stage::Persisting(Change::Restored(ending, now)),
            ),
            _ => self,
        }
    }
}

/// Where the publication of a record begins.
pub open spec fn begun(record: super::spool::RecordView, purpose: Purpose, now: Seq<char>) -> JobView {
    let job = JobView { record, purpose, stage: Stage::Validating };
    if record.publication is None {
        job.stopped(
            if purpose == Purpose::Commit {
                "Atomic record has no publication state"@
            } else {
                "publication recovery record has no publication state"@
            },
        )
    } else if purpose == Purpose::Commit {
        if record.publication->0.phase is Executing {
            job
        } else {
            job.stopped("publication preparation requires executing phase"@)
        }
    } else {
        match record.publication->0.phase {
            PublicationPhase::PreparingExchange => job.preparing(),
            PublicationPhase::ReadyToCommit => if purpose == Purpose::Settle {
                job.done()
            } else if record.publication->0.candidate_identity is None {
                job.stopped("ready_to_commit lacks candidate identity"@)
            } else {
                job.at(Stage::SeeingOutcome)
            },
            PublicationPhase::PreVisibilityRecovery => job.returning(intended(record.publication->0)),
            PublicationPhase::VisiblePendingDurability => job.visible(),
            PublicationPhase::CommittedPendingReport => if record.state is Succeeded {
                job.done()
            } else {
                job.at(Stage::Persisting(Change::Settled(now)))
            },
            PublicationPhase::Executing | PublicationPhase::AbandonedFenced => job.done(),
        }
    }
}

/// How an attempt was to end when the return of its candidate was interrupted.
pub open spec fn intended(publication: PublicationView) -> Ending<Seq<char>> {
    Ending {
        state: match publication.pre_visibility_terminal_state {
            Some(state) => state,
            None => AttemptState::Failed,
        },
        kind: match publication.pre_visibility_failure_kind {
            Some(kind) => Some(kind),
            None => Some(FailureKind::InvalidResult),
        },
        message: match publication.pre_visibility_message {
            Some(message) => message,
            None => "publication private namespace recovered after an earlier failure"@,
        },
        unprepared: false,
    }
}

fn text_seen(seen: &Result<Option<FileIdentity>, String>) -> (r: Result<Option<FileIdentity>, String>)
    ensures
        seen_view(r) == seen_view(*seen),
{
    match seen {
        Ok(identity) => Ok(*identity),
        Err(error) => Err(error.clone()),
    }
}

impl Job {
    fn state(&self) -> (r: &PublicationState)
        requires
            self.record.publication is Some,
        ensures
            *r == self.record.publication->0,
            r@ == self@.publication(),
    {
        self.record.publication.as_ref().unwrap()
    }

    fn at(self, stage: Stage<String>) -> (r: Job)
        ensures
            r@ == self@.at(stage_view(stage)),
    {
        Job { record: self.record, purpose: self.purpose, stage }
    }

    fn stopped(self, error: String) -> (r: Job)
        ensures
            r@ == self@.stopped(error@),
    {
        self.at(Stage::Finished(Some(error)))
    }

    fn done(self) -> (r: Job)
        ensures
            r@ == self@.done(),
    {
        self.at(Stage::Finished(None))
    }

    fn stopped_by(self, error: &str) -> (r: Job)
        ensures
            r@ == self@.stopped(error@),
    {
        self.stopped(error.to_owned())
    }

    fn without_directory(self, name: &str) -> (r: Job)
        ensures
            r@ == self@.stopped(no_parent(name@)),
    {
        let error: String = text::join3("path ", name, " has no parent");
        self.stopped(error)
    }

    fn restoring(self, ending: Ending<String>) -> (r: Job)
        requires
            self@.workable(),
        ensures
            r@ == self@.restoring(ending_view(ending)),
            r@.sound(),
    {
        if self.state().phase == PublicationPhase::PreVisibilityRecovery {
            self.returning(ending)
        } else {
            self.at(Stage::Persisting(Change::Intent(ending)))
        }
    }

    fn returning(self, ending: Ending<String>) -> (r: Job)
        requires
            self@.workable(),
        ensures
            r@ == self@.returning(ending_view(ending)),
            r@.sound(),
    {
        if self.state().candidate_identity.is_none() {
            self.stopped_by("publication lacks candidate identity")
        } else {
            self.at(Stage::SeeingCandidate(ending))
        }
    }

    fn returned(self, ending: Ending<String>) -> (r: Job)
        requires
            self@.workable(),
            self@.publication().candidate_identity is Some,
        ensures
            r@ == self@.returned(ending_view(ending)),
            r@.sound(),
    {
        if self.state().stable_previous_identity.is_none() {
            self.restored(ending)
        } else if self.state().rotated_previous_path.is_none() {
            self.stopped_by("publication lacks previous rotation path")
        } else {
            self.at(Stage::SeeingPrevious(ending))
        }
    }

    fn restored(self, ending: Ending<String>) -> (r: Job)
        requires
            self@.workable(),
        ensures
            r@ == self@.restored(ending_view(ending)),
            r@.sound(),
    {
        let candidate: String = self.state().candidate_dir.clone();
        let exchange: String = self.state().exchange_dir.clone();
        if path::parent(candidate.as_str()).is_none() {
            self.without_directory(candidate.as_str())
        } else if path::parent(exchange.as_str()).is_none() {
            self.without_directory(exchange.as_str())
        } else {
            self.at(Stage::SyncingRestored(ending))
        }
    }

    fn unprepared(self, problem: String) -> (r: Job)
        requires
            self@.workable(),
        ensures
            r@ == self@.unprepared(problem@),
            r@.sound(),
    {
        self.restoring(
            Ending {
                state: AttemptState::Failed,
                kind: Some(FailureKind::InvalidResult),
                message: problem,
                unprepared: true,
            },
        )
    }

    fn refused(self, problem: String) -> (r: Job)
        requires
            self@.workable(),
        ensures
            r@ == self@.refused(problem@),
            r@.sound(),
    {
        self.restoring(
            Ending {
                state: AttemptState::Failed,
                kind: Some(FailureKind::InvalidResult),
                message: problem,
                unprepared: false,
            },
        )
    }

    fn preparing(self) -> (r: Job)
        requires
            self@.workable(),
        ensures
            r@ == self@.preparing(),
            r@.sound(),
    {
        if self.state().candidate_identity.is_none() {
            self.unprepared("preparing_exchange lacks candidate identity".to_owned())
        } else {
            self.at(Stage::CreatingGc)
        }
    }

    fn clearing(self) -> (r: Job)
        requires
            self@.workable(),
            self@.publication().candidate_identity is Some,
        ensures
            r@ == self@.clearing(),
            r@.sound(),
    {
        if self.state().stable_previous_identity.is_some() && self.state().rotated_previous_path.is_none() {
            self.unprepared("preparing_exchange lacks planned previous rotation path".to_owned())
        } else {
            self.at(Stage::SeeingRotation)
        }
    }

    fn cleared(self, seen: Vec<Result<Option<FileIdentity>, String>>) -> (r: Job)
        requires
            self@.workable(),
            self@.publication().candidate_identity is Some,
            seen@.len() >= 1,
            self@.publication().stable_previous_identity is Some ==> seen@.len() >= 2
                && self@.publication().rotated_previous_path is Some,
        ensures
            r@ == self@.cleared(seen_view(seen@[0]), seen_view(seen@[1])),
            r@.sound(),
    {
        let own: Option<FileIdentity> = self.state().candidate_identity;
        let previous: Option<FileIdentity> = self.state().stable_previous_identity;
        let slot: Option<FileIdentity> = match text_seen(&seen[0]) {
            Ok(slot) => slot,
            Err(error) => {
                return self.unprepared(error);
            },
        };
        if previous.is_none() {
            if slot.is_some() && slot != own {
                return self.unprepared("unexpected exchange entry appeared during first publication".to_owned());
            }
            return self.at(Stage::SeeingStaging);
        }
        let older: Option<FileIdentity> = match text_seen(&seen[1]) {
            Ok(older) => older,
            Err(error) => {
                return self.unprepared(error);
            },
        };
        if slot == previous && older.is_none() {
            self.at(Stage::Rotating)
        } else if (slot.is_none() && older == previous) || (slot.is_some() && slot == own) {
            self.at(Stage::SeeingStaging)
        } else {
            let problem: String = pair_name(
                "cannot reconstruct stable previous rotation from identities: ",
                slot,
                older,
            );
            self.unprepared(problem)
        }
    }

    fn staged(self, seen: Vec<Result<Option<FileIdentity>, String>>) -> (r: Job)
        requires
            self@.workable(),
            self@.publication().candidate_identity is Some,
            seen@.len() == 2,
        ensures
            r@ == self@.staged(seen_view(seen@[0]), seen_view(seen@[1])),
            r@.sound(),
    {
        let own: Option<FileIdentity> = self.state().candidate_identity;
        let private: Option<FileIdentity> = match text_seen(&seen[0]) {
            Ok(private) => private,
            Err(error) => {
                return self.unprepared(error);
            },
        };
        let slot: Option<FileIdentity> = match text_seen(&seen[1]) {
            Ok(slot) => slot,
            Err(error) => {
                return self.unprepared(error);
            },
        };
        if private == own && slot.is_none() {
            self.at(Stage::Staging)
        } else if private.is_none() && slot == own {
            self.prepared()
        } else {
            let problem: String = pair_name(
                "cannot stage candidate into fixed exchange slot from identities: ",
                private,
                slot,
            );
            self.unprepared(problem)
        }
    }

    fn prepared(self) -> (r: Job)
        requires
            self@.workable(),
            self@.publication().candidate_identity is Some,
        ensures
            r@ == self@.prepared(),
            r@.sound(),
    {
        let candidate: String = self.state().candidate_dir.clone();
        let exchange: String = self.state().exchange_dir.clone();
        if path::parent(candidate.as_str()).is_none() {
            let problem: String = text::join3("path ", candidate.as_str(), " has no parent");
            self.unprepared(problem)
        } else if path::parent(exchange.as_str()).is_none() {
            let problem: String = text::join3("path ", exchange.as_str(), " has no parent");
            self.unprepared(problem)
        } else {
            self.at(Stage::SyncingPrepared)
        }
    }

    fn committing(self) -> (r: Job)
        requires
            self@.workable(),
        ensures
            r@ == self@.committing(),
            r@.sound(),
    {
        if self.state().phase != PublicationPhase::ReadyToCommit {
            self.stopped_by("visibility commit requires ready_to_commit phase")
        } else if self.record.cancel_requested {
            self.restoring(
                Ending {
                    state: AttemptState::Cancelled,
                    kind: None,
                    message: "cancelled before visibility".to_owned(),
                    unprepared: false,
                },
            )
        } else if self.state().candidate_identity.is_none() {
            self.refused("ready_to_commit lacks candidate identity".to_owned())
        } else {
            self.at(Stage::SeeingReady)
        }
    }

    fn checked(self, seen: Vec<Result<Option<FileIdentity>, String>>) -> (r: Job)
        requires
            self@.workable(),
            self@.publication().candidate_identity is Some,
            seen@.len() >= 2,
            self@.publication().stable_previous_identity is Some && self@.publication().rotated_previous_path is Some
                ==> seen@.len() >= 3,
        ensures
            r@ == self@.checked(Seq::new(seen@.len(), |i: int| seen_view(seen@[i]))),
            r@.sound(),
    {
        let slot: Option<FileIdentity> = match text_seen(&seen[0]) {
            Ok(slot) => slot,
            Err(error) => {
                return self.refused(error);
            },
        };
        if slot != self.state().candidate_identity {
            return self.refused("candidate identity is not in fixed exchange slot".to_owned());
        }
        let public: Option<FileIdentity> = match text_seen(&seen[1]) {
            Ok(public) => public,
            Err(error) => {
                return self.refused(error);
            },
        };
        if public != self.state().published_identity {
            return self.refused("published identity changed outside LMT".to_owned());
        }
        let previous: Option<FileIdentity> = self.state().stable_previous_identity;
        if previous.is_none() {
            return self.at(Stage::MakingVisible);
        }
        if self.state().rotated_previous_path.is_none() {
            return self.refused("ready_to_commit lacks previous rotation path".to_owned());
        }
        let older: Option<FileIdentity> = match text_seen(&seen[2]) {
            Ok(older) => older,
            Err(error) => {
                return self.refused(error);
            },
        };
        if older != previous {
            return self.refused("stable previous identity is not at its protected rotation path".to_owned());
        }
        self.at(Stage::MakingVisible)
    }

    fn visible(self) -> (r: Job)
        requires
            self@.workable(),
        ensures
            r@ == self@.visible(),
            r@.sound(),
    {
        if self.state().candidate_identity.is_none() {
            self.stopped_by("publication lacks candidate identity")
        } else {
            self.at(Stage::SeeingVisible)
        }
    }

    fn proven(self, seen: Vec<Result<Option<FileIdentity>, String>>) -> (r: Job)
        requires
            self@.workable(),
            seen@.len() == 1,
        ensures
            r@ == self@.proven(seen_view(seen@[0])),
            r@.sound(),
    {
        let found: Option<FileIdentity> = match text_seen(&seen[0]) {
            Ok(found) => found,
            Err(error) => {
                return self.stopped(error);
            },
        };
        let published: String = self.state().published_dir.clone();
        let exchange: String = self.state().exchange_dir.clone();
        if found != self.state().candidate_identity {
            self.stopped_by("candidate identity is not visible at published path; visibility outcome is unresolved")
        } else if path::parent(published.as_str()).is_none() {
            self.without_directory(published.as_str())
        } else if path::parent(exchange.as_str()).is_none() {
            self.without_directory(exchange.as_str())
        } else {
            self.at(Stage::SyncingVisible)
        }
    }

    fn resumed(self, seen: Vec<Result<Option<FileIdentity>, String>>) -> (r: Job)
        requires
            self@.workable(),
            self@.publication().candidate_identity is Some,
            seen@.len() == 2,
        ensures
            r@ == self@.resumed(seen_view(seen@[0]), seen_view(seen@[1])),
            r@.sound(),
    {
        let own: Option<FileIdentity> = self.state().candidate_identity;
        let public: Option<FileIdentity> = match text_seen(&seen[0]) {
            Ok(public) => public,
            Err(error) => {
                return self.stopped(error);
            },
        };
        let slot: Option<FileIdentity> = match text_seen(&seen[1]) {
            Ok(slot) => slot,
            Err(error) => {
                return self.stopped(error);
            },
        };
        if public == own {
            self.visible()
        } else if slot == own && public == self.state().published_identity {
            self.committing()
        } else {
            self.refused("ready_to_commit identities are inconsistent".to_owned())
        }
    }

    fn found(self, ending: Ending<String>, seen: Vec<Result<Option<FileIdentity>, String>>) -> (r: Job)
        requires
            self@.workable(),
            self@.publication().candidate_identity is Some,
            seen@.len() == 2,
        ensures
            r@ == self@.found(ending_view(ending), seen_view(seen@[0]), seen_view(seen@[1])),
            r@.sound(),
    {
        let slot: Option<FileIdentity> = match text_seen(&seen[0]) {
            Ok(slot) => slot,
            Err(error) => {
                return self.stopped(error);
            },
        };
        if slot != self.state().candidate_identity {
            return self.returned(ending);
        }
        match text_seen(&seen[1]) {
            Err(error) => self.stopped(error),
            Ok(Some(_)) => self.stopped_by("cannot restore candidate because its private path exists"),
            Ok(None) => self.at(Stage::ReturningCandidate(ending)),
        }
    }

    fn refilled(self, ending: Ending<String>, seen: Vec<Result<Option<FileIdentity>, String>>) -> (r: Job)
        requires
            self@.workable(),
            self@.publication().candidate_identity is Some,
            self@.publication().stable_previous_identity is Some,
            self@.publication().rotated_previous_path is Some,
            seen@.len() == 2,
        ensures
            r@ == self@.refilled(ending_view(ending), seen_view(seen@[0]), seen_view(seen@[1])),
            r@.sound(),
    {
        let previous: Option<FileIdentity> = self.state().stable_previous_identity;
        let slot: Option<FileIdentity> = match text_seen(&seen[0]) {
            Ok(slot) => slot,
            Err(error) => {
                return self.stopped(error);
            },
        };
        let older: Option<FileIdentity> = match text_seen(&seen[1]) {
            Ok(older) => older,
            Err(error) => {
                return self.stopped(error);
            },
        };
        if slot.is_none() && older == previous {
            self.at(Stage::ReturningPrevious(ending))
        } else if slot == previous {
            self.restored(ending)
        } else {
            let problem: String = pair_name("cannot restore stable previous identity: ", slot, older);
            self.stopped(problem)
        }
    }
}

fn require(seen: &Result<Option<FileIdentity>, String>, name: &str) -> (r: Result<FileIdentity, String>)
    ensures
        match r {
            Ok(identity) => required(seen_view(*seen), name@) == Ok::<FileIdentity, Seq<char>>(identity),
            Err(error) => required(seen_view(*seen), name@) == Err::<FileIdentity, Seq<char>>(error@),
        },
{
    match seen {
        Ok(Some(identity)) => Ok(*identity),
        Ok(None) => Err(text::join2("stat ", name)),
        Err(error) => Err(error.clone()),
    }
}

impl Job {
    fn surveyed(self, seen: Vec<Result<Option<FileIdentity>, String>>) -> (r: Job)
        requires
            self@.workable(),
            seen@.len() == 5,
        ensures
            r@ == self@.surveyed(Seq::new(seen@.len(), |i: int| seen_view(seen@[i]))),
            r@.sound(),
    {
        let published: String = self.state().published_dir.clone();
        let exchange: String = self.state().exchange_dir.clone();
        let candidate: FileIdentity = match &seen[0] {
            Ok(Some(candidate)) => *candidate,
            _ => {
                return self.stopped_by("candidate does not exist after sync success");
            },
        };
        let public_parent: String = match path::parent(published.as_str()) {
            Some(name) => name,
            None => {
                return self.without_directory(published.as_str());
            },
        };
        let public: FileIdentity = match require(&seen[1], public_parent.as_str()) {
            Ok(identity) => identity,
            Err(error) => {
                return self.stopped(error);
            },
        };
        let private_parent: String = match path::parent(exchange.as_str()) {
            Some(name) => name,
            None => {
                return self.without_directory(exchange.as_str());
            },
        };
        let private: FileIdentity = match require(&seen[2], private_parent.as_str()) {
            Ok(identity) => identity,
            Err(error) => {
                return self.stopped(error);
            },
        };
        if candidate.device != public.device || candidate.device != private.device {
            return self.stopped_by("candidate, exchange, and published parent are not on one filesystem");
        }
        let current: Option<FileIdentity> = match text_seen(&seen[3]) {
            Ok(current) => current,
            Err(error) => {
                return self.stopped(error);
            },
        };
        let previous: Option<FileIdentity> = match text_seen(&seen[4]) {
            Ok(previous) => previous,
            Err(error) => {
                return self.stopped(error);
            },
        };
        if current.is_none() && previous.is_some() {
            return self.stopped_by("published target is absent while a stable previous generation exists");
        }
        self.at(
            Stage::Persisting(
                Change::Preparing(Survey { candidate, published: current, exchange: previous }),
            ),
        )
    }

    fn intended(&self) -> (r: Ending<String>)
        requires
            self.record.publication is Some,
        ensures
            ending_view(r) == intended(self@.publication()),
    {
        let publication: &PublicationState = self.state();
        Ending {
            state: match publication.pre_visibility_terminal_state {
                Some(state) => state,
                None => AttemptState::Failed,
            },
            kind: match publication.pre_visibility_failure_kind {
                Some(kind) => Some(kind),
                None => Some(FailureKind::InvalidResult),
            },
            message: match &publication.pre_visibility_message {
                Some(message) => message.clone(),
                None => "publication private namespace recovered after an earlier failure".to_owned(),
            },
            unprepared: false,
        }
    }

    /// Begins to work on the publication of a record.
    pub fn begin(record: SpoolRecord, purpose: Purpose, now: &str) -> (r: Job)
        requires
            record.sequence < u64::MAX,
        ensures
            r@ == begun(record@, purpose, now@),
            r@.sound(),
    {
        let job: Job = Job { record, purpose, stage: Stage::Validating };
        if job.record.publication.is_none() {
            return if purpose == Purpose::Commit {
                job.stopped_by("Atomic record has no publication state")
            } else {
                job.stopped_by("publication recovery record has no publication state")
            };
        }
        let phase: PublicationPhase = job.state().phase;
        if purpose == Purpose::Commit {
            return if phase == PublicationPhase::Executing {
                job
            } else {
                job.stopped_by("publication preparation requires executing phase")
            };
        }
        match phase {
            PublicationPhase::PreparingExchange => job.preparing(),
            PublicationPhase::ReadyToCommit => if purpose == Purpose::Settle {
                job.done()
            } else if job.state().candidate_identity.is_none() {
                job.stopped_by("ready_to_commit lacks candidate identity")
            } else {
                job.at(Stage::SeeingOutcome)
            },
            PublicationPhase::PreVisibilityRecovery => {
                let ending: Ending<String> = job.intended();
                job.returning(ending)
            },
            PublicationPhase::VisiblePendingDurability => job.visible(),
            PublicationPhase::CommittedPendingReport => if job.record.state == AttemptState::Succeeded {
                job.done()
            } else {
                job.at(Stage::Persisting(Change::Settled(now.to_owned())))
            },
            PublicationPhase::Executing | PublicationPhase::AbandonedFenced => job.done(),
        }
    }

    /// What the job asks for.
    pub fn action(&self) -> (r: Action)
        requires
            self@.sound(),
        ensures
            r@ == self@.asks(),
    {
        if let Stage::Finished(error) = &self.stage {
            return Action::Finish(text::clone_opt(error));
        }
        let p: &PublicationState = self.state();
        let older: String = match &p.rotated_previous_path {
            Some(name) => name.clone(),
            None => String::new(),
        };
        match &self.stage {
            Stage::Finished(error) => Action::Finish(text::clone_opt(error)),
            Stage::Validating => Action::Validate {
                candidate: p.candidate_dir.clone(),
                published: p.published_dir.clone(),
            },
            Stage::Surveying => {
                let names: Vec<String> = vec![
                    p.candidate_dir.clone(),
                    directory(p.published_dir.as_str()),
                    directory(p.exchange_dir.as_str()),
                    p.published_dir.clone(),
                    p.exchange_dir.clone(),
                ];
                assert(text::views(names@) =~= self@.asks()->Observe_0);
                Action::Observe(names)
            },
            Stage::Persisting(_) => Action::Persist,
            Stage::CreatingGc => Action::CreateDirectory(p.gc_dir.clone()),
            Stage::SeeingRotation => {
                let names: Vec<String> = if p.stable_previous_identity.is_some() {
                    vec![p.exchange_dir.clone(), older]
                } else {
                    vec![p.exchange_dir.clone()]
                };
                assert(text::views(names@) =~= self@.asks()->Observe_0);
                Action::Observe(names)
            },
            Stage::Rotating => Action::Rename { from: p.exchange_dir.clone(), to: older },
            Stage::SeeingStaging => {
                let names: Vec<String> = vec![p.candidate_dir.clone(), p.exchange_dir.clone()];
                assert(text::views(names@) =~= self@.asks()->Observe_0);
                Action::Observe(names)
            },
            Stage::Staging => Action::Rename { from: p.candidate_dir.clone(), to: p.exchange_dir.clone() },
            Stage::SyncingPrepared => {
                let names: Vec<String> = vec![
                    directory(p.candidate_dir.as_str()),
                    directory(p.exchange_dir.as_str()),
                    p.gc_dir.clone(),
                ];
                assert(text::views(names@) =~= self@.asks()->Sync_0);
                Action::Sync(names)
            },
            Stage::SeeingRotated => {
                let names: Vec<String> = vec![older];
                assert(text::views(names@) =~= self@.asks()->Observe_0);
                Action::Observe(names)
            },
            Stage::SeeingReady => {
                let names: Vec<String> = if p.stable_previous_identity.is_some() && p.rotated_previous_path.is_some() {
                    vec![p.exchange_dir.clone(), p.published_dir.clone(), older]
                } else {
                    vec![p.exchange_dir.clone(), p.published_dir.clone()]
                };
                assert(text::views(names@) =~= self@.asks()->Observe_0);
                Action::Observe(names)
            },
            Stage::MakingVisible => if p.published_identity.is_some() {
                Action::Exchange { left: p.exchange_dir.clone(), right: p.published_dir.clone() }
            } else {
                Action::Rename { from: p.exchange_dir.clone(), to: p.published_dir.clone() }
            },
            Stage::SeeingVisible => {
                let names: Vec<String> = vec![p.published_dir.clone()];
                assert(text::views(names@) =~= self@.asks()->Observe_0);
                Action::Observe(names)
            },
            Stage::SyncingVisible => {
                let names: Vec<String> = vec![
                    directory(p.published_dir.as_str()),
                    directory(p.exchange_dir.as_str()),
                ];
                assert(text::views(names@) =~= self@.asks()->Sync_0);
                Action::Sync(names)
            },
            Stage::SeeingOutcome => {
                let names: Vec<String> = vec![p.published_dir.clone(), p.exchange_dir.clone()];
                assert(text::views(names@) =~= self@.asks()->Observe_0);
                Action::Observe(names)
            },
            Stage::SeeingCandidate(_) => {
                let names: Vec<String> = vec![p.exchange_dir.clone(), p.candidate_dir.clone()];
                assert(text::views(names@) =~= self@.asks()->Observe_0);
                Action::Observe(names)
            },
            Stage::ReturningCandidate(_) => Action::Rename {
                from: p.exchange_dir.clone(),
                to: p.candidate_dir.clone(),
            },
            Stage::SeeingPrevious(_) => {
                let names: Vec<String> = vec![p.exchange_dir.clone(), older];
                assert(text::views(names@) =~= self@.asks()->Observe_0);
                Action::Observe(names)
            },
            Stage::ReturningPrevious(_) => Action::Rename { from: older, to: p.exchange_dir.clone() },
            Stage::SyncingRestored(_) => {
                let names: Vec<String> = vec![
                    directory(p.candidate_dir.as_str()),
                    directory(p.exchange_dir.as_str()),
                ];
                assert(text::views(names@) =~= self@.asks()->Sync_0);
                Action::Sync(names)
            },
        }
    }

    /// The record that is to be written: with the pending change made, where a write is asked for.
    pub fn proposed(&self) -> (r: SpoolRecord)
        requires
            self@.sound(),
        ensures
            r@ == (match self@.stage {
                Stage::Persisting(change) => changed(self@.record, change),
                _ => self@.record,
            }),
    {
        let mut record: SpoolRecord = self.record.clone();
        if let Stage::Persisting(change) = &self.stage {
            apply_change(&mut record, change);
        }
        record
    }

    fn persisted(self, change: Change<String>) -> (r: Job)
        requires
            self@.workable(),
        ensures
            r@ == self@.persisted(change_view(change)),
            r@.sound(),
    {
        let purpose: Purpose = self.purpose;
        let mut record: SpoolRecord = self.record;
        apply_change(&mut record, &change);
        let next: Job = Job { record, purpose, stage: Stage::Validating };
        match change {
            Change::Preparing(_) => next.preparing(),
            Change::Ready(_) => if purpose == Purpose::Settle {
                next.done()
            } else {
                next.committing()
            },
            Change::Intent(ending) => next.returning(ending),
            Change::Pending => next.stopped_by("publication visible but directory durability is pending"),
            Change::Committed(_) | Change::Settled(_) => next.done(),
            Change::Restored(ending, _) => if ending.unprepared && purpose == Purpose::Commit {
                next.stopped_by("visibility commit requires ready_to_commit phase")
            } else {
                next.done()
            },
        }
    }

    fn unpersisted(self, change: Change<String>, error: String) -> (r: Job)
        requires
            self@.workable(),
        ensures
            r@ == self@.unpersisted(change_view(change), error@),
            r@.sound(),
    {
        match change {
            Change::Preparing(_) => self.stopped_by("persist preparing_exchange"),
            Change::Ready(_) => self.unprepared("persist ready_to_commit".to_owned()),
            Change::Intent(_) => self.stopped_by("persist pre-visibility recovery intent"),
            Change::Pending => self.stopped_by("publication visible but directory durability is pending"),
            Change::Committed(_) => self.stopped_by("persist committed_pending_report before success"),
            Change::Restored(_, _) | Change::Settled(_) => self.stopped(error),
        }
    }
}

impl Job {
    /// Goes where an event leads.
    pub fn step(self, event: Event, now: &str) -> (r: Job)
        requires
            self@.sound(),
            self@.admits(event@),
        ensures
            r@ == self@.next(event@, now@),
            r@.sound(),
    {
        let ghost before = self@;
        let Job { record, purpose, stage } = self;
        let job: Job = Job { record, purpose, stage: Stage::Validating };
        assert(job@ == before.at(Stage::Validating));
        match event {
            Event::Seen(seen) => match stage {
                Stage::Surveying => job.surveyed(seen),
                Stage::SeeingRotation => job.cleared(seen),
                Stage::SeeingStaging => job.staged(seen),
                Stage::SeeingRotated => match text_seen(&seen[0]) {
                    Err(error) => job.unprepared(error),
                    Ok(older) => job.at(Stage::Persisting(Change::Ready(older))),
                },
                Stage::SeeingReady => job.checked(seen),
                Stage::SeeingVisible => job.proven(seen),
                Stage::SeeingOutcome => job.resumed(seen),
                Stage::SeeingCandidate(ending) => job.found(ending, seen),
                Stage::SeeingPrevious(ending) => job.refilled(ending, seen),
                other => job.at(other),
            },
            Event::Failed(error) => match stage {
                Stage::Validating => job.stopped(error),
                Stage::Persisting(change) => job.unpersisted(change, error),
                Stage::CreatingGc => job.unprepared("create publication GC directory".to_owned()),
                Stage::Rotating | Stage::Staging | Stage::SyncingPrepared => job.unprepared(error),
                Stage::MakingVisible
                | Stage::ReturningCandidate(_)
                | Stage::ReturningPrevious(_)
                | Stage::SyncingRestored(_) => job.stopped(error),
                Stage::SyncingVisible => job.at(Stage::Persisting(Change::Pending)),
                other => job.at(other),
            },
            Event::Done => match stage {
                Stage::Validating => job.at(Stage::Surveying),
                Stage::Persisting(change) => job.persisted(change),
                Stage::CreatingGc => job.clearing(),
                Stage::Rotating => job.at(Stage::SeeingStaging),
                Stage::Staging => job.prepared(),
                Stage::SyncingPrepared => if job.state().rotated_previous_path.is_some() {
                    job.at(Stage::SeeingRotated)
                } else {
                    job.at(Stage::Persisting(Change::Ready(None)))
                },
                Stage::MakingVisible => job.visible(),
                Stage::SyncingVisible => job.at(Stage::Persisting(Change::Committed(now.to_owned()))),
                Stage::ReturningCandidate(ending) => job.returned(ending),
                Stage::ReturningPrevious(ending) => job.restored(ending),
                Stage::SyncingRestored(ending) => job.at(
                    Stage::Persisting(Change::Restored(ending, now.to_owned())),
                ),
                other => job.at(other),
            },
        }
    }
}

/// A candidate becomes visible only where everything stands as it was prepared: the candidate in the slot,
/// the published directory untouched, and the generation before it in its safe place. Else everything is
/// put back and the attempt fails.
pub proof fn law_candidates_become_visible_where_all_stands(job: JobView, seen: Seq<SeenView>, now: Seq<char>)
    requires
        job.stage == Stage::<Seq<char>>::SeeingReady,
        job.publication().candidate_identity is Some,
    ensures
        ({
            let p = job.publication();
            let next = job.next(EventView::Seen(seen), now);
            let stands = seen[0] == Ok::<Option<FileIdentity>, Seq<char>>(p.candidate_identity) && seen[1] == Ok::<
                Option<FileIdentity>,
                Seq<char>,
            >(p.published_identity) && (p.stable_previous_identity is None || (p.rotated_previous_path is Some && seen[2] == Ok::<
                Option<FileIdentity>,
                Seq<char>,
            >(p.stable_previous_identity)));
            &&& next.record == job.record
            &&& stands <==> next.stage == Stage::<Seq<char>>::MakingVisible
            &&& !stands && p.phase is PreVisibilityRecovery ==> next.stage is SeeingCandidate && next.stage->SeeingCandidate_0.state
                == AttemptState::Failed
            &&& !stands && !(p.phase is PreVisibilityRecovery) ==> next.stage is Persisting && next.stage->Persisting_0 is Intent
                && next.stage->Persisting_0->Intent_0.state == AttemptState::Failed && next.stage->Persisting_0->Intent_0.kind
                == Some(FailureKind::InvalidResult)
        }),
        job.at(Stage::MakingVisible).asks() == (if job.publication().published_identity is Some {
            ActionView::Exchange { left: job.publication().exchange_dir, right: job.publication().published_dir }
        } else {
            ActionView::Rename { from: job.publication().exchange_dir, to: job.publication().published_dir }
        }),
{
}

/// A cancellation that comes before a candidate is visible keeps it from becoming so: what was prepared is
/// put back and the attempt is cancelled.
pub proof fn law_cancelled_candidates_stay_hidden(job: JobView, rotated: Option<FileIdentity>, event: EventView, now: Seq<char>)
    requires
        job.stage == Stage::<Seq<char>>::Persisting(Change::Ready(rotated)),
        job.purpose != Purpose::Settle,
        !(event is Failed),
    ensures
        ({
            let next = job.next(event, now);
            &&& next.record.publication->0.phase == PublicationPhase::ReadyToCommit
            &&& next.record.publication->0.rotated_previous_identity == rotated
            &&& next.record.publication->0.exchange_identity == job.publication().candidate_identity
            &&& job.record.cancel_requested ==> next.stage is Persisting && next.stage->Persisting_0 is Intent
                && next.stage->Persisting_0->Intent_0.state == AttemptState::Cancelled
            &&& !job.record.cancel_requested && job.publication().candidate_identity is Some ==> next.stage
                == Stage::<Seq<char>>::SeeingReady
        }),
{
}

/// An attempt succeeds only once its candidate was seen at the published name and that was made durable: where
/// it was not seen nothing is claimed, and where it could not be made durable that is kept for recovery.
pub proof fn law_success_is_seen_and_durable(job: JobView, event: EventView, now: Seq<char>)
    ensures
        job.next(event, now).record.state == AttemptState::Succeeded && job.record.state != AttemptState::Succeeded
            ==> job.stage is Persisting && !(event is Failed) && (job.stage->Persisting_0 is Committed
            || job.stage->Persisting_0 is Settled || (job.stage->Persisting_0 is Restored
            && job.stage->Persisting_0->Restored_0.state == AttemptState::Succeeded)),
        job.stage == Stage::<Seq<char>>::SyncingVisible && !(event is Failed) ==> job.next(event, now).stage == Stage::<
            Seq<char>,
        >::Persisting(Change::Committed(now)),
        job.stage == Stage::<Seq<char>>::SyncingVisible && event is Failed ==> job.next(event, now).stage == Stage::<
            Seq<char>,
        >::Persisting(Change::Pending),
        job.stage == Stage::<Seq<char>>::SeeingVisible && event is Seen && job.next(event, now).stage == Stage::<
            Seq<char>,
        >::SyncingVisible ==> event->Seen_0[0] == Ok::<Option<FileIdentity>, Seq<char>>(job.publication().candidate_identity),
        job.stage == Stage::<Seq<char>>::SeeingVisible && event is Seen && job.next(event, now).stage != Stage::<
            Seq<char>,
        >::SyncingVisible ==> job.next(event, now).stage is Finished && job.next(event, now).stage->Finished_0 is Some
            && job.next(event, now).record == job.record,
        job.stage == Stage::<Seq<char>>::MakingVisible && event is Failed ==> job.next(event, now).stage is Finished
            && job.next(event, now).record == job.record,
{
}

/// A candidate is prepared where it is there, shares one filesystem with the published name and the slot,
/// and no older generation stands without a published one; what was seen is what is kept.
pub proof fn law_candidates_are_surveyed(job: JobView, seen: Seq<SeenView>, now: Seq<char>)
    requires
        job.stage == Stage::<Seq<char>>::Surveying,
    ensures
        ({
            let p = job.publication();
            let next = job.next(EventView::Seen(seen), now);
            let there = seen[0] is Ok && seen[0]->Ok_0 is Some && seen[1] is Ok && seen[1]->Ok_0 is Some && seen[2] is Ok
                && seen[2]->Ok_0 is Some && path::parent_of(p.published_dir) is Some && path::parent_of(p.exchange_dir) is Some;
            let together = there && seen[0]->Ok_0->0.device == seen[1]->Ok_0->0.device && seen[0]->Ok_0->0.device
                == seen[2]->Ok_0->0.device;
            let known = seen[3] is Ok && seen[4] is Ok && (seen[3]->Ok_0 is Some || seen[4]->Ok_0 is None);
            &&& next.record == job.record
            &&& next.stage is Persisting <==> together && known
            &&& next.stage is Persisting ==> next.stage->Persisting_0 == Change::<Seq<char>>::Preparing(
                Survey { candidate: seen[0]->Ok_0->0, published: seen[3]->Ok_0, exchange: seen[4]->Ok_0 },
            )
            &&& !(next.stage is Persisting) ==> next.stage is Finished && next.stage->Finished_0 is Some
        }),
{
}

/// The generation before is put in its safe place where it is in the slot and that place is free; it is
/// there already where the slot is empty; and the candidate goes into the slot where it is in its own place
/// and the slot is empty. Anything else is put back.
pub proof fn law_slots_are_cleared_and_filled(job: JobView, seen: Seq<SeenView>, now: Seq<char>)
    requires
        job.stage == Stage::<Seq<char>>::SeeingRotation || job.stage == Stage::<Seq<char>>::SeeingStaging,
        job.publication().candidate_identity is Some,
        seen[0] is Ok,
        seen[1] is Ok,
    ensures
        ({
            let p = job.publication();
            let next = job.next(EventView::Seen(seen), now);
            let (first, second) = (seen[0]->Ok_0, seen[1]->Ok_0);
            &&& job.stage == Stage::<Seq<char>>::SeeingRotation && p.stable_previous_identity is Some ==> {
                &&& next.stage == Stage::<Seq<char>>::Rotating <==> first == p.stable_previous_identity && second is None
                &&& next.stage == Stage::<Seq<char>>::SeeingStaging <==> !(first == p.stable_previous_identity && second is None)
                    && ((first is None && second == p.stable_previous_identity) || first == p.candidate_identity)
            }
            &&& job.stage == Stage::<Seq<char>>::SeeingRotation && p.stable_previous_identity is None ==> (next.stage == Stage::<
                Seq<char>,
            >::SeeingStaging <==> first is None || first == p.candidate_identity)
            &&& job.stage == Stage::<Seq<char>>::SeeingStaging ==> {
                &&& next.stage == Stage::<Seq<char>>::Staging <==> first == p.candidate_identity && second is None
                &&& first is None && second == p.candidate_identity && path::parent_of(p.candidate_dir) is Some && path::parent_of(
                    p.exchange_dir,
                ) is Some ==> next.stage == Stage::<Seq<char>>::SyncingPrepared
            }
            &&& next.record == job.record
        }),
        job.at(Stage::Rotating).asks() == (ActionView::Rename {
            from: job.publication().exchange_dir,
            to: job.publication().rotated_previous_path->0,
        }),
        job.at(Stage::Staging).asks() == (ActionView::Rename {
            from: job.publication().candidate_dir,
            to: job.publication().exchange_dir,
        }),
{
}

/// Putting back moves the candidate from the slot to its own place and the generation before from its safe place
/// to the slot, each only where it is there and the place is free.
pub proof fn law_what_was_moved_is_put_back(job: JobView, ending: Ending<Seq<char>>, seen: Seq<SeenView>, now: Seq<char>)
    requires
        job.stage == Stage::<Seq<char>>::SeeingCandidate(ending) || job.stage == Stage::<Seq<char>>::SeeingPrevious(ending)
            || job.stage == Stage::<Seq<char>>::SyncingRestored(ending),
        seen[0] is Ok,
        seen[1] is Ok,
    ensures
        ({
            let p = job.publication();
            let next = job.next(EventView::Seen(seen), now);
            let (first, second) = (seen[0]->Ok_0, seen[1]->Ok_0);
            &&& job.stage == Stage::<Seq<char>>::SeeingCandidate(ending) ==> {
                &&& next.stage == Stage::<Seq<char>>::ReturningCandidate(ending) <==> first == p.candidate_identity && second is None
                &&& first == p.candidate_identity && second is Some ==> next.stage is Finished
                &&& first != p.candidate_identity ==> next.stage == job.returned(ending).stage
            }
            &&& job.stage == Stage::<Seq<char>>::SeeingPrevious(ending) ==> {
                &&& next.stage == Stage::<Seq<char>>::ReturningPrevious(ending) <==> first is None && second
                    == p.stable_previous_identity
                &&& next.stage is SyncingRestored ==> first == p.stable_previous_identity && next.stage->SyncingRestored_0 == ending
            }
            &&& next.record == job.record
        }),
        job.at(Stage::ReturningCandidate(ending)).asks() == (ActionView::Rename {
            from: job.publication().exchange_dir,
            to: job.publication().candidate_dir,
        }),
        job.at(Stage::ReturningPrevious(ending)).asks() == (ActionView::Rename {
            from: job.publication().rotated_previous_path->0,
            to: job.publication().exchange_dir,
        }),
        job.stage == Stage::<Seq<char>>::SyncingRestored(ending) ==> job.next(EventView::Done, now).stage == Stage::<
            Seq<char>,
        >::Persisting(Change::Restored(ending, now)),
{
}

/// A commit that was broken off is taken up by what is seen: a candidate that is visible is made durable, one
/// that waits in the slot before an untouched published directory is committed, and anything else is put
/// back.
pub proof fn law_broken_commits_are_taken_up(job: JobView, seen: Seq<SeenView>, now: Seq<char>)
    requires
        job.stage == Stage::<Seq<char>>::SeeingOutcome,
        job.publication().candidate_identity is Some,
        job.publication().phase is ReadyToCommit,
        seen[0] is Ok,
        seen[1] is Ok,
    ensures
        ({
            let p = job.publication();
            let next = job.next(EventView::Seen(seen), now);
            let (published, slot) = (seen[0]->Ok_0, seen[1]->Ok_0);
            let waits = published != p.candidate_identity && slot == p.candidate_identity && published == p.published_identity;
            &&& published == p.candidate_identity ==> next.stage == Stage::<Seq<char>>::SeeingVisible
            &&& waits && !job.record.cancel_requested ==> next.stage == Stage::<Seq<char>>::SeeingReady
            &&& waits && job.record.cancel_requested ==> next.stage is Persisting && next.stage->Persisting_0 is Intent
                && next.stage->Persisting_0->Intent_0.state == AttemptState::Cancelled
            &&& published != p.candidate_identity && !waits ==> next.stage is Persisting && next.stage->Persisting_0 is Intent
                && next.stage->Persisting_0->Intent_0.state == AttemptState::Failed
            &&& next.record == job.record
        }),
{
}

/// Recovery takes a record up where it was left: what was being prepared is prepared on, what was being
/// put back is put back with the end that was noted, what is visible is made durable, what is committed
/// succeeds, and what never moved a name, or was abandoned, is left.
pub proof fn law_records_are_taken_up_where_they_were_left(record: super::spool::RecordView, now: Seq<char>)
    requires
        record.publication is Some,
        record.publication->0.candidate_identity is Some,
    ensures
        ({
            let job = begun(record, Purpose::Recover, now);
            let p = record.publication->0;
            &&& job.record == record
            &&& p.phase is Executing || p.phase is AbandonedFenced ==> job.stage == Stage::<Seq<char>>::Finished(None)
            &&& p.phase is PreparingExchange ==> job.stage == Stage::<Seq<char>>::CreatingGc
            &&& p.phase is ReadyToCommit ==> job.stage == Stage::<Seq<char>>::SeeingOutcome
            &&& p.phase is VisiblePendingDurability ==> job.stage == Stage::<Seq<char>>::SeeingVisible
            &&& p.phase is PreVisibilityRecovery ==> job.stage is SeeingCandidate && (p.pre_visibility_terminal_state is Some
                ==> job.stage->SeeingCandidate_0.state == p.pre_visibility_terminal_state->0) && (
            p.pre_visibility_message is Some ==> job.stage->SeeingCandidate_0.message == p.pre_visibility_message->0)
            &&& p.phase is CommittedPendingReport && record.state == AttemptState::Succeeded ==> job.stage == Stage::<
                Seq<char>,
            >::Finished(None)
            &&& p.phase is CommittedPendingReport && record.state != AttemptState::Succeeded ==> job.stage == Stage::<
                Seq<char>,
            >::Persisting(Change::Settled(now))
            &&& p.phase is Executing ==> begun(record, Purpose::Commit, now).stage == Stage::<Seq<char>>::Validating
            &&& !(p.phase is Executing) ==> begun(record, Purpose::Commit, now).stage is Finished && begun(
                record,
                Purpose::Commit,
                now,
            ).stage->Finished_0 is Some
        }),
{
}

} // verus!
