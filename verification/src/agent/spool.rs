//! The durable record that an agent keeps of each attempt it owns.
use crate::domain::state::AtomicPublicationSpec;
use crate::domain::state::AttemptState;
use crate::domain::state::FailureKind;
use crate::domain::state::ProcessRunSpec;
use crate::path;
use crate::text;
use vstd::prelude::*;

verus! {

/// Which entry of which file system a name leads to.
#[derive(Clone, Copy, Debug, PartialEq, Eq, Structural)]
pub struct FileIdentity {
    pub device: u64,
    pub inode: u64,
}

/// How far the publication of an attempt has come.
#[derive(Clone, Copy, Debug, PartialEq, Eq, Structural)]
pub enum PublicationPhase {
    Executing,
    PreparingExchange,
    ReadyToCommit,
    PreVisibilityRecovery,
    VisiblePendingDurability,
    CommittedPendingReport,
    AbandonedFenced,
}

impl PublicationPhase {
    /// True of the phases whose record is evidence that must not be lost.
    pub open spec fn protected(self) -> bool {
        !(self is Executing)
    }

    /// True of the phases in which names may have been moved and not yet settled.
    pub open spec fn unsettled(self) -> bool {
        !(self is Executing) && !(self is AbandonedFenced)
    }

    /// True of the phases whose record is evidence that must not be lost.
    pub fn is_protected(self) -> (r: bool)
        ensures
            r == self.protected(),
    {
        !matches!(self, PublicationPhase::Executing)
    }

    /// True of the phases in which names may have been moved and not yet settled.
    pub fn requires_namespace_recovery(self) -> (r: bool)
        ensures
            r == self.unsettled(),
    {
        matches!(
            self,
            PublicationPhase::PreparingExchange
                | PublicationPhase::ReadyToCommit
                | PublicationPhase::PreVisibilityRecovery
                | PublicationPhase::VisiblePendingDurability
                | PublicationPhase::CommittedPendingReport
        )
    }
}

/// The publication of an attempt: its directories, what stood in them when it was prepared, and
/// how an attempt ends whose candidate is taken back.
#[derive(Debug, PartialEq, Eq)]
pub struct PublicationState {
    pub phase: PublicationPhase,
    pub mirror: String,
    pub publication_root: String,
    pub published_dir: String,
    pub candidate_dir: String,
    pub basis_dir: String,
    pub exchange_dir: String,
    pub gc_dir: String,
    pub candidate_identity: Option<FileIdentity>,
    pub published_identity: Option<FileIdentity>,
    pub stable_previous_identity: Option<FileIdentity>,
    pub exchange_identity: Option<FileIdentity>,
    pub rotated_previous_path: Option<String>,
    pub rotated_previous_identity: Option<FileIdentity>,
    pub pre_visibility_terminal_state: Option<AttemptState>,
    pub pre_visibility_failure_kind: Option<FailureKind>,
    pub pre_visibility_message: Option<String>,
}

/// What a publication state holds.
pub struct PublicationView {
    pub phase: PublicationPhase,
    pub mirror: Seq<char>,
    pub publication_root: Seq<char>,
    pub published_dir: Seq<char>,
    pub candidate_dir: Seq<char>,
    pub basis_dir: Seq<char>,
    pub exchange_dir: Seq<char>,
    pub gc_dir: Seq<char>,
    pub candidate_identity: Option<FileIdentity>,
    pub published_identity: Option<FileIdentity>,
    pub stable_previous_identity: Option<FileIdentity>,
    pub exchange_identity: Option<FileIdentity>,
    pub rotated_previous_path: Option<Seq<char>>,
    pub rotated_previous_identity: Option<FileIdentity>,
    pub pre_visibility_terminal_state: Option<AttemptState>,
    pub pre_visibility_failure_kind: Option<FailureKind>,
    pub pre_visibility_message: Option<Seq<char>>,
}

impl PublicationState {
    /// What the state holds.
    pub open spec fn view(&self) -> PublicationView {
        PublicationView {
            phase: self.phase,
            mirror: self.mirror@,
            publication_root: self.publication_root@,
            published_dir: self.published_dir@,
            candidate_dir: self.candidate_dir@,
            basis_dir: self.basis_dir@,
            exchange_dir: self.exchange_dir@,
            gc_dir: self.gc_dir@,
            candidate_identity: self.candidate_identity,
            published_identity: self.published_identity,
            stable_previous_identity: self.stable_previous_identity,
            exchange_identity: self.exchange_identity,
            rotated_previous_path: text::opt_view(self.rotated_previous_path),
            rotated_previous_identity: self.rotated_previous_identity,
            pre_visibility_terminal_state: self.pre_visibility_terminal_state,
            pre_visibility_failure_kind: self.pre_visibility_failure_kind,
            pre_visibility_message: text::opt_view(self.pre_visibility_message),
        }
    }
}

impl Clone for PublicationState {
    fn clone(&self) -> (r: Self)
        ensures
            r == *self,
    {
        PublicationState {
            phase: self.phase,
            mirror: self.mirror.clone(),
            publication_root: self.publication_root.clone(),
            published_dir: self.published_dir.clone(),
            candidate_dir: self.candidate_dir.clone(),
            basis_dir: self.basis_dir.clone(),
            exchange_dir: self.exchange_dir.clone(),
            gc_dir: self.gc_dir.clone(),
            candidate_identity: self.candidate_identity,
            published_identity: self.published_identity,
            stable_previous_identity: self.stable_previous_identity,
            exchange_identity: self.exchange_identity,
            rotated_previous_path: text::clone_opt(&self.rotated_previous_path),
            rotated_previous_identity: self.rotated_previous_identity,
            pre_visibility_terminal_state: self.pre_visibility_terminal_state,
            pre_visibility_failure_kind: self.pre_visibility_failure_kind,
            pre_visibility_message: text::clone_opt(&self.pre_visibility_message),
        }
    }
}

/// What a run specification holds.
pub struct SpecView {
    pub runner: Seq<char>,
    pub program: Seq<char>,
    pub args: Seq<Seq<char>>,
    pub cwd: Option<Seq<char>>,
    pub timeout_seconds: u64,
    pub mirror_root: Seq<char>,
    pub target_dir: Seq<char>,
    pub publication: Option<Box<AtomicPublicationSpec>>,
}

/// What a run specification holds.
pub open spec fn spec_view(spec: ProcessRunSpec) -> SpecView {
    SpecView {
        runner: spec.runner@,
        program: spec.program@,
        args: text::views(spec.args@),
        cwd: text::opt_view(spec.cwd),
        timeout_seconds: spec.timeout_seconds,
        mirror_root: spec.mirror_root@,
        target_dir: spec.target_dir@,
        publication: spec.publication,
    }
}

/// What an agent keeps of an attempt.
#[derive(Debug, PartialEq, Eq)]
pub struct SpoolRecord {
    pub run_id: String,
    pub attempt: u32,
    pub spec_hash: String,
    pub spec: Option<ProcessRunSpec>,
    pub cancel_requested: bool,
    pub state: AttemptState,
    pub sequence: u64,
    pub acknowledged_sequence: u64,
    pub accepted_at: Option<String>,
    pub started_at: Option<String>,
    pub finished_at: Option<String>,
    pub exit_code: Option<i32>,
    pub failure_kind: Option<FailureKind>,
    pub failure_message: Option<String>,
    pub log_offset: u64,
    pub log_complete_acknowledged: bool,
    pub publication: Option<PublicationState>,
}

/// What a record holds.
pub struct RecordView {
    pub run_id: Seq<char>,
    pub attempt: u32,
    pub spec_hash: Seq<char>,
    pub spec: Option<SpecView>,
    pub cancel_requested: bool,
    pub state: AttemptState,
    pub sequence: u64,
    pub acknowledged_sequence: u64,
    pub accepted_at: Option<Seq<char>>,
    pub started_at: Option<Seq<char>>,
    pub finished_at: Option<Seq<char>>,
    pub exit_code: Option<i32>,
    pub failure_kind: Option<FailureKind>,
    pub failure_message: Option<Seq<char>>,
    pub log_offset: u64,
    pub log_complete_acknowledged: bool,
    pub publication: Option<PublicationView>,
}

/// How an attempt ends.
pub struct EndView {
    pub state: AttemptState,
    pub exit_code: Option<i32>,
    pub kind: Option<FailureKind>,
    pub message: Option<Seq<char>>,
}

impl RecordView {
    /// The record of the attempt once it has ended as told, which is one report more.
    pub open spec fn ended(self, end: EndView, now: Seq<char>) -> RecordView {
        RecordView {
            state: end.state,
            sequence: (self.sequence + 1) as u64,
            finished_at: Some(now),
            exit_code: end.exit_code,
            failure_kind: end.kind,
            failure_message: end.message,
            ..self
        }
    }

    /// True when the record is evidence of a publication that must not be lost.
    pub open spec fn protected(self) -> bool {
        self.publication is Some && self.publication->0.phase.protected()
    }

    /// True when names may have been moved for the record's publication and not yet settled.
    pub open spec fn unsettled(self) -> bool {
        self.publication is Some && self.publication->0.phase.unsettled()
    }

    /// True when nothing needs the record any more: the attempt has ended, the server has its last
    /// report and its whole log, and no publication rests on it.
    pub open spec fn disposable(self) -> bool {
        &&& !self.protected()
        &&& self.state.terminal()
        &&& self.acknowledged_sequence >= self.sequence
        &&& self.log_complete_acknowledged
    }
}

/// The publication of an attempt that has just been accepted.
pub open spec fn fresh_publication(spec: AtomicPublicationSpec) -> PublicationView {
    PublicationView {
        phase: PublicationPhase::Executing,
        mirror: spec.mirror@,
        publication_root: spec.publication_root@,
        published_dir: spec.published_dir@,
        candidate_dir: spec.candidate_dir@,
        basis_dir: spec.basis_dir@,
        exchange_dir: spec.exchange_dir@,
        gc_dir: spec.gc_dir@,
        candidate_identity: None,
        published_identity: None,
        stable_previous_identity: None,
        exchange_identity: None,
        rotated_previous_path: None,
        rotated_previous_identity: None,
        pre_visibility_terminal_state: None,
        pre_visibility_failure_kind: None,
        pre_visibility_message: None,
    }
}

/// The record of an attempt that has just been accepted.
pub open spec fn accepted_record(
    run_id: Seq<char>,
    attempt: u32,
    spec_hash: Seq<char>,
    spec: SpecView,
    now: Seq<char>,
) -> RecordView {
    RecordView {
        run_id,
        attempt,
        spec_hash,
        spec: Some(spec),
        cancel_requested: false,
        state: AttemptState::Accepted,
        sequence: 1,
        acknowledged_sequence: 0,
        accepted_at: Some(now),
        started_at: None,
        finished_at: None,
        exit_code: None,
        failure_kind: None,
        failure_message: None,
        log_offset: 0,
        log_complete_acknowledged: false,
        publication: match spec.publication {
            Some(publication) => Some(fresh_publication(*publication)),
            None => None,
        },
    }
}

/// The record of an attempt that was cancelled before it arrived.
pub open spec fn tombstone(run_id: Seq<char>, attempt: u32, spec_hash: Seq<char>, now: Seq<char>) -> RecordView {
    RecordView {
        run_id,
        attempt,
        spec_hash,
        spec: None,
        cancel_requested: true,
        state: AttemptState::Cancelled,
        sequence: 1,
        acknowledged_sequence: 0,
        accepted_at: None,
        started_at: None,
        finished_at: Some(now),
        exit_code: None,
        failure_kind: None,
        failure_message: None,
        log_offset: 0,
        log_complete_acknowledged: false,
        publication: None,
    }
}

impl SpoolRecord {
    /// What the record holds.
    pub open spec fn view(&self) -> RecordView {
        RecordView {
            run_id: self.run_id@,
            attempt: self.attempt,
            spec_hash: self.spec_hash@,
            spec: match self.spec {
                Some(spec) => Some(spec_view(spec)),
                None => None,
            },
            cancel_requested: self.cancel_requested,
            state: self.state,
            sequence: self.sequence,
            acknowledged_sequence: self.acknowledged_sequence,
            accepted_at: text::opt_view(self.accepted_at),
            started_at: text::opt_view(self.started_at),
            finished_at: text::opt_view(self.finished_at),
            exit_code: self.exit_code,
            failure_kind: self.failure_kind,
            failure_message: text::opt_view(self.failure_message),
            log_offset: self.log_offset,
            log_complete_acknowledged: self.log_complete_acknowledged,
            publication: match self.publication {
                Some(publication) => Some(publication@),
                None => None,
            },
        }
    }

    /// The record of an attempt that has just been accepted.
    pub fn accepted(run_id: String, attempt: u32, spec_hash: String, spec: ProcessRunSpec, now: String) -> (r: Self)
        ensures
            r@ == accepted_record(run_id@, attempt, spec_hash@, spec_view(spec), now@),
    {
        let publication: Option<PublicationState> = match &spec.publication {
            Some(publication) => Some(
                PublicationState {
                    phase: PublicationPhase::Executing,
                    mirror: publication.mirror.clone(),
                    publication_root: publication.publication_root.clone(),
                    published_dir: publication.published_dir.clone(),
                    candidate_dir: publication.candidate_dir.clone(),
                    basis_dir: publication.basis_dir.clone(),
                    exchange_dir: publication.exchange_dir.clone(),
                    gc_dir: publication.gc_dir.clone(),
                    candidate_identity: None,
                    published_identity: None,
                    stable_previous_identity: None,
                    exchange_identity: None,
                    rotated_previous_path: None,
                    rotated_previous_identity: None,
                    pre_visibility_terminal_state: None,
                    pre_visibility_failure_kind: None,
                    pre_visibility_message: None,
                },
            ),
            None => None,
        };
        SpoolRecord {
            run_id,
            attempt,
            spec_hash,
            spec: Some(spec),
            cancel_requested: false,
            state: AttemptState::Accepted,
            sequence: 1,
            acknowledged_sequence: 0,
            accepted_at: Some(now),
            started_at: None,
            finished_at: None,
            exit_code: None,
            failure_kind: None,
            failure_message: None,
            log_offset: 0,
            log_complete_acknowledged: false,
            publication,
        }
    }

    /// The record of an attempt that was cancelled before it arrived.
    pub fn cancellation_tombstone(run_id: String, attempt: u32, spec_hash: String, now: String) -> (r: Self)
        ensures
            r@ == tombstone(run_id@, attempt, spec_hash@, now@),
    {
        SpoolRecord {
            run_id,
            attempt,
            spec_hash,
            spec: None,
            cancel_requested: true,
            state: AttemptState::Cancelled,
            sequence: 1,
            acknowledged_sequence: 0,
            accepted_at: None,
            started_at: None,
            finished_at: Some(now),
            exit_code: None,
            failure_kind: None,
            failure_message: None,
            log_offset: 0,
            log_complete_acknowledged: false,
            publication: None,
        }
    }

    /// Ends the attempt as told.
    pub fn terminal(
        &mut self,
        state: AttemptState,
        exit_code: Option<i32>,
        kind: Option<FailureKind>,
        message: Option<String>,
        now: String,
    )
        requires
            old(self).sequence < u64::MAX,
        ensures
            final(self)@ == old(self)@.ended(
                (EndView { state, exit_code, kind, message: text::opt_view(message) }),
                now@,
            ),
    {
        self.state = state;
        self.sequence = self.sequence + 1;
        self.finished_at = Some(now);
        self.exit_code = exit_code;
        self.failure_kind = kind;
        self.failure_message = message;
    }

    /// True when nothing needs the record any more.
    pub fn ready_for_cleanup(&self) -> (r: bool)
        ensures
            r == self@.disposable(),
    {
        !self.has_protected_publication_evidence() && self.state.is_terminal() && self.acknowledged_sequence
            >= self.sequence && self.log_complete_acknowledged
    }

    /// True when the record is evidence of a publication that must not be lost.
    pub fn has_protected_publication_evidence(&self) -> (r: bool)
        ensures
            r == self@.protected(),
    {
        match &self.publication {
            Some(publication) => publication.phase.is_protected(),
            None => false,
        }
    }

    /// True when names may have been moved for the record's publication and not yet settled.
    pub fn requires_publication_recovery(&self) -> (r: bool)
        ensures
            r == self@.unsettled(),
    {
        match &self.publication {
            Some(publication) => publication.phase.requires_namespace_recovery(),
            None => false,
        }
    }
}

impl Clone for SpoolRecord {
    fn clone(&self) -> (r: Self)
        ensures
            r@ == self@,
    {
        let spec: Option<ProcessRunSpec> = match &self.spec {
            Some(value) => Some(value.clone()),
            None => None,
        };
        let publication: Option<PublicationState> = match &self.publication {
            Some(value) => Some(value.clone()),
            None => None,
        };
        SpoolRecord {
            run_id: self.run_id.clone(),
            attempt: self.attempt,
            spec_hash: self.spec_hash.clone(),
            spec,
            cancel_requested: self.cancel_requested,
            state: self.state,
            sequence: self.sequence,
            acknowledged_sequence: self.acknowledged_sequence,
            accepted_at: text::clone_opt(&self.accepted_at),
            started_at: text::clone_opt(&self.started_at),
            finished_at: text::clone_opt(&self.finished_at),
            exit_code: self.exit_code,
            failure_kind: self.failure_kind,
            failure_message: text::clone_opt(&self.failure_message),
            log_offset: self.log_offset,
            log_complete_acknowledged: self.log_complete_acknowledged,
            publication,
        }
    }
}

/// The name by which an attempt is known: its run and its number.
pub open spec fn attempt_key(run_id: Seq<char>, attempt: u32) -> Seq<char> {
    run_id + "-"@ + text::decimal(attempt as nat)
}

/// No two attempts are known by one name.
pub proof fn law_attempts_have_names_of_their_own(run: Seq<char>, attempt: u32, other: Seq<char>, number: u32)
    requires
        attempt_key(run, attempt) == attempt_key(other, number),
    ensures
        run == other,
        attempt == number,
{
    text::lemma_numbered(run, attempt as nat, other, number as nat);
}

/// The name by which an attempt is known.
pub fn key(run_id: &str, attempt: u32) -> (r: String)
    ensures
        r@ == attempt_key(run_id@, attempt),
{
    let number: String = text::decimal_text(attempt as u64);
    text::join3(run_id, "-", number.as_str())
}

/// The file of an attempt's record.
pub open spec fn record_file(root: Seq<char>, run_id: Seq<char>, attempt: u32) -> Seq<char> {
    path::join_path(root, attempt_key(run_id, attempt) + ".json"@)
}

/// The file of an attempt's record.
pub fn state_path(root: &str, run_id: &str, attempt: u32) -> (r: String)
    ensures
        r@ == record_file(root@, run_id@, attempt),
{
    let name: String = key(run_id, attempt);
    let file: String = text::join2(name.as_str(), ".json");
    path::join(root, file.as_str())
}

/// The file of an attempt's log, beside its record.
pub fn log_path(state: &str) -> (r: String)
    ensures
        r@ == path::with_suffix(state@, "log"@),
{
    path::replace_suffix(state, "log")
}

/// The file in which a record is written before it replaces the one that stands.
pub fn temporary_path(state: &str) -> (r: String)
    ensures
        r@ == path::with_suffix(state@, "tmp"@),
{
    path::replace_suffix(state, "tmp")
}

/// The file that a record becomes when nothing needs it any more.
pub fn retired_path(state: &str) -> (r: String)
    ensures
        r@ == path::with_suffix(state@, "retired"@),
{
    path::replace_suffix(state, "retired")
}

/// A record that a publication rests on is never cleaned up, whatever the server has acknowledged.
pub proof fn law_publication_evidence_is_kept(record: RecordView)
    requires
        record.publication is Some,
        record.publication->0.phase.unsettled() || record.publication->0.phase is AbandonedFenced,
    ensures
        !record.disposable(),
{
}

/// The end of an attempt is one report that the server has not acknowledged, so the record stays
/// until it has.
pub proof fn law_an_end_is_reported_before_cleanup(record: RecordView, end: EndView, now: Seq<char>)
    requires
        record.acknowledged_sequence <= record.sequence < u64::MAX,
    ensures
        !record.ended(end, now).disposable(),
{
}

/// A record may go exactly where the attempt has ended, the server has its last report and its whole log, and
/// no name was moved for it.
pub proof fn law_records_go_when_nothing_needs_them(record: RecordView)
    ensures
        record.disposable() <==> {
            &&& record.state != AttemptState::Queued && record.state != AttemptState::Accepted && record.state
                != AttemptState::Running
            &&& record.acknowledged_sequence >= record.sequence
            &&& record.log_complete_acknowledged
            &&& record.publication is None || record.publication->0.phase == PublicationPhase::Executing
        },
        record.unsettled() <==> record.publication is Some && record.publication->0.phase != PublicationPhase::Executing
            && record.publication->0.phase != PublicationPhase::AbandonedFenced,
        record.unsettled() ==> record.protected(),
{
}

} // verus!
