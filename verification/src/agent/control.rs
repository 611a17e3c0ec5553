//! What an agent does with the actions it is handed, with its records after a restart, and what it
//! reports of them.
use super::config::Config;
use super::spool::PublicationPhase;
use super::spool;
use super::spool::accepted_record;
use super::spool::spec_view;
use super::spool::tombstone;
use super::spool::EndView;
use super::spool::RecordView;
use super::spool::SpecView;
use super::spool::SpoolRecord;
use crate::domain::state::AttemptState;
use crate::domain::state::FailureKind;
use crate::domain::state::ProcessRunSpec;
use crate::path;
use crate::protocol::Capacity;
use crate::protocol::EventRequest;
use crate::protocol::OwnedAttempt;
use crate::protocol::PollRequest;
use crate::protocol::PublicationHealth;
use crate::protocol::PROTOCOL_VERSION;
use crate::text;
use vstd::prelude::*;

verus! {

/// True of a specification that the agent may execute: a process of this node's mirror root whose
/// target and working directory lie below the root.
pub open spec fn is_safe(root: Seq<char>, spec: SpecView) -> bool {
    &&& spec.runner == "process"@
    &&& spec.mirror_root == root
    &&& path::leads_into(spec.target_dir, root)
    &&& spec.cwd is Some ==> path::leads_into(spec.cwd->0, root)
}

/// True of a specification that the agent may execute.
pub fn safe_spec(root: &str, spec: &ProcessRunSpec) -> (r: bool)
    ensures
        r == is_safe(root@, spec_view(*spec)),
{
    let inside: bool = match &spec.cwd {
        Some(cwd) => path::starts_with(cwd.as_str(), root),
        None => true,
    };
    text::same(spec.runner.as_str(), "process") && text::same(spec.mirror_root.as_str(), root) && path::starts_with(
        spec.target_dir.as_str(),
        root,
    ) && inside
}

/// An attempt that the agent is told to start.
#[derive(Debug, PartialEq, Eq)]
pub struct Offer {
    pub run_id: String,
    pub attempt: u32,
    pub spec_hash: String,
    pub spec: ProcessRunSpec,
}

/// What becomes of an attempt that the agent is told to start.
#[derive(Debug, PartialEq, Eq)]
pub enum Acceptance {
    /// The attempt is known with another specification; what is known stays.
    Conflict,
    /// The attempt is known; its record is reconciled.
    Known,
    /// The attempt is executing, or there is no room for it.
    Ignored,
    /// The attempt is refused; its record is written and reported.
    Rejected(SpoolRecord),
    /// The attempt is taken; its record is written before it is executed.
    Started(SpoolRecord),
}

/// What becomes of an attempt, with what its record holds.
pub enum AcceptanceView {
    Conflict,
    Known,
    Ignored,
    Rejected(RecordView),
    Started(RecordView),
}

impl Acceptance {
    /// What becomes of the attempt.
    pub open spec fn view(&self) -> AcceptanceView {
        match *self {
            Acceptance::Conflict => AcceptanceView::Conflict,
            Acceptance::Known => AcceptanceView::Known,
            Acceptance::Ignored => AcceptanceView::Ignored,
            Acceptance::Rejected(record) => AcceptanceView::Rejected(record@),
            Acceptance::Started(record) => AcceptanceView::Started(record@),
        }
    }
}

/// How an attempt ends that the agent may not execute.
pub open spec fn rejection() -> EndView {
    EndView {
        state: AttemptState::Rejected,
        exit_code: None,
        kind: Some(FailureKind::Rejected),
        message: Some("local policy rejected spec"@),
    }
}

/// What becomes of an attempt that the agent is told to start, by the specification it is known
/// with, whether it is executing, and how many are.
pub open spec fn acceptance(
    config: Config,
    known: Option<Seq<char>>,
    executing: bool,
    active: nat,
    offer: Offer,
    now: Seq<char>,
) -> AcceptanceView {
    let fresh = accepted_record(offer.run_id@, offer.attempt, offer.spec_hash@, spec_view(offer.spec), now);
    if known is Some && known->0 != offer.spec_hash@ {
        AcceptanceView::Conflict
    } else if known is Some {
        AcceptanceView::Known
    } else if executing || active >= config.execution.max_concurrent_runs {
        AcceptanceView::Ignored
    } else if !config.runner.process.enabled || !is_safe(config.storage.mirror_root@, spec_view(offer.spec)) {
        AcceptanceView::Rejected(fresh.ended(rejection(), now))
    } else {
        AcceptanceView::Started(fresh)
    }
}

/// Decides what becomes of an attempt that the agent is told to start.
pub fn accept(
    config: &Config,
    known: Option<&str>,
    executing: bool,
    active: usize,
    offer: Offer,
    now: &str,
) -> (r: Acceptance)
    ensures
        r@ == acceptance(
            *config,
            (match known {
                Some(hash) => Some(hash@),
                None => None,
            }),
            executing,
            active as nat,
            offer,
            now@,
        ),
{
    if let Some(hash) = known {
        return if text::same(hash, offer.spec_hash.as_str()) {
            Acceptance::Known
        } else {
            Acceptance::Conflict
        };
    }
    if executing || active >= config.execution.max_concurrent_runs as usize {
        return Acceptance::Ignored;
    }
    let allowed: bool = config.runner.process.enabled && safe_spec(
        config.storage.mirror_root.as_str(),
        &offer.spec,
    );
    let Offer { run_id, attempt, spec_hash, spec } = offer;
    let mut record: SpoolRecord = SpoolRecord::accepted(run_id, attempt, spec_hash, spec, now.to_owned());
    if !allowed {
        record.terminal(
            AttemptState::Rejected,
            None,
            Some(FailureKind::Rejected),
            Some("local policy rejected spec".to_owned()),
            now.to_owned(),
        );
        return Acceptance::Rejected(record);
    }
    Acceptance::Started(record)
}

/// What is found of an attempt that the agent is told to cancel.
#[derive(Debug, PartialEq, Eq)]
pub enum Found {
    Record(SpoolRecord),
    Absent,
    Unreadable,
}

/// What becomes of a cancellation.
#[derive(Debug, PartialEq, Eq)]
pub enum Cancellation {
    /// The record cannot be read and stays.
    Unreadable,
    /// The attempt is known with another specification; what is known stays.
    Conflict,
    /// The attempt has ended; its record is reconciled.
    Ended(SpoolRecord),
    /// The attempt was not known; its tombstone is written and reconciled.
    Tombstone(SpoolRecord),
    /// The wish is written down and the execution is told.
    Requested(SpoolRecord),
}

/// What becomes of a cancellation, with what the record holds.
pub enum CancellationView {
    Unreadable,
    Conflict,
    Ended(RecordView),
    Tombstone(RecordView),
    Requested(RecordView),
}

impl Cancellation {
    /// What becomes of the cancellation.
    pub open spec fn view(&self) -> CancellationView {
        match *self {
            Cancellation::Unreadable => CancellationView::Unreadable,
            Cancellation::Conflict => CancellationView::Conflict,
            Cancellation::Ended(record) => CancellationView::Ended(record@),
            Cancellation::Tombstone(record) => CancellationView::Tombstone(record@),
            Cancellation::Requested(record) => CancellationView::Requested(record@),
        }
    }
}

/// What becomes of a cancellation, by what is found of its attempt.
pub open spec fn cancellation(
    found: Found,
    run_id: Seq<char>,
    attempt: u32,
    spec_hash: Seq<char>,
    now: Seq<char>,
) -> CancellationView {
    match found {
        Found::Unreadable => CancellationView::Unreadable,
        Found::Absent => CancellationView::Tombstone(tombstone(run_id, attempt, spec_hash, now)),
        Found::Record(record) => if record@.spec_hash != spec_hash {
            CancellationView::Conflict
        } else if record@.state.terminal() {
            CancellationView::Ended(record@)
        } else {
            CancellationView::Requested(RecordView { cancel_requested: true, ..record@ })
        },
    }
}

/// Decides what becomes of a cancellation.
pub fn cancel(found: Found, run_id: &str, attempt: u32, spec_hash: &str, now: &str) -> (r: Cancellation)
    ensures
        r@ == cancellation(found, run_id@, attempt, spec_hash@, now@),
{
    match found {
        Found::Unreadable => Cancellation::Unreadable,
        Found::Absent => Cancellation::Tombstone(
            SpoolRecord::cancellation_tombstone(
                run_id.to_owned(),
                attempt,
                spec_hash.to_owned(),
                now.to_owned(),
            ),
        ),
        Found::Record(record) => {
            if !text::same(record.spec_hash.as_str(), spec_hash) {
                return Cancellation::Conflict;
            }
            if record.state.is_terminal() {
                return Cancellation::Ended(record);
            }
            let mut record: SpoolRecord = record;
            record.cancel_requested = true;
            Cancellation::Requested(record)
        },
    }
}

/// What becomes of a record when the agent starts again.
#[derive(Debug, PartialEq, Eq)]
pub enum Restart {
    /// The attempt had ended.
    Kept(SpoolRecord),
    /// The attempt ends now; its record is written.
    Ended(SpoolRecord),
}

/// What becomes of a record, with what it holds.
pub enum RestartView {
    Kept(RecordView),
    Ended(RecordView),
}

impl Restart {
    /// What becomes of the record.
    pub open spec fn view(&self) -> RestartView {
        match *self {
            Restart::Kept(record) => RestartView::Kept(record@),
            Restart::Ended(record) => RestartView::Ended(record@),
        }
    }
}

/// How an attempt ends whose execution did not outlive the agent.
pub open spec fn interruption(cancelled: bool) -> EndView {
    if cancelled {
        EndView { state: AttemptState::Cancelled, exit_code: None, kind: None, message: None }
    } else {
        EndView {
            state: AttemptState::Interrupted,
            exit_code: None,
            kind: Some(FailureKind::Interrupted),
            message: Some("agent restarted without terminal result"@),
        }
    }
}

/// What becomes of a record when the agent starts again.
pub open spec fn restarted(record: RecordView, now: Seq<char>) -> RestartView {
    if record.state.terminal() {
        RestartView::Kept(record)
    } else {
        RestartView::Ended(record.ended(interruption(record.cancel_requested), now))
    }
}

/// Decides what becomes of a record when the agent starts again.
pub fn recover(record: SpoolRecord, now: &str) -> (r: Restart)
    requires
        record.sequence < u64::MAX,
    ensures
        r@ == restarted(record@, now@),
{
    if record.state.is_terminal() {
        return Restart::Kept(record);
    }
    let mut record: SpoolRecord = record;
    if record.cancel_requested {
        record.terminal(AttemptState::Cancelled, None, None, None, now.to_owned());
    } else {
        record.terminal(
            AttemptState::Interrupted,
            None,
            Some(FailureKind::Interrupted),
            Some("agent restarted without terminal result".to_owned()),
            now.to_owned(),
        );
    }
    Restart::Ended(record)
}

/// True when an event tells what is next to be told of a record: that the attempt was accepted,
/// where nothing was acknowledged and more has happened, else how it stands.
pub open spec fn reports(event: EventRequest, record: RecordView, instance: Seq<char>) -> bool {
    let first = record.acknowledged_sequence == 0 && record.sequence > 1;
    &&& event.event_sequence == (if first {
        1
    } else {
        record.sequence
    })
    &&& event.state == (if first {
        AttemptState::Accepted
    } else {
        record.state
    })
    &&& event.agent_instance_id@ == instance
    &&& text::opt_view(event.accepted_at) == record.accepted_at
    &&& text::opt_view(event.started_at) == record.started_at
    &&& text::opt_view(event.finished_at) == record.finished_at
    &&& event.exit_code == record.exit_code
    &&& event.failure_kind == record.failure_kind
    &&& text::opt_view(event.failure_message) == record.failure_message
}

/// What there is to report of an attempt.
pub open spec fn event_pending(record: RecordView, instance: Seq<char>, r: Option<EventRequest>) -> bool {
    match r {
        None => record.acknowledged_sequence >= record.sequence,
        Some(event) => record.acknowledged_sequence < record.sequence && reports(event, record, instance),
    }
}

/// The event that the server has not acknowledged, if there is one.
pub fn pending_event(record: &SpoolRecord, instance: &str) -> (r: Option<EventRequest>)
    ensures
        event_pending(record@, instance@, r),
{
    if record.acknowledged_sequence >= record.sequence {
        return None;
    }
    let first: bool = record.acknowledged_sequence == 0 && record.sequence > 1;
    Some(
        EventRequest {
            event_sequence: if first {
                1
            } else {
                record.sequence
            },
            state: if first {
                AttemptState::Accepted
            } else {
                record.state
            },
            agent_instance_id: instance.to_owned(),
            accepted_at: text::clone_opt(&record.accepted_at),
            started_at: text::clone_opt(&record.started_at),
            finished_at: text::clone_opt(&record.finished_at),
            exit_code: record.exit_code,
            failure_kind: record.failure_kind,
            failure_message: text::clone_opt(&record.failure_message),
        },
    )
}

/// The greater of two numbers.
pub open spec fn greater(a: u64, b: u64) -> u64 {
    if a < b {
        b
    } else {
        a
    }
}

/// What the server's word on an event makes of a record.
pub open spec fn event_acknowledged(before: RecordView, after: RecordView, sequence: u64) -> bool {
    after == (RecordView {
        acknowledged_sequence: greater(before.acknowledged_sequence, sequence),
        ..before
    })
}

/// Notes that the server has taken an event.
pub fn acknowledge_event(record: &mut SpoolRecord, sequence: u64)
    ensures
        event_acknowledged(old(record)@, final(record)@, sequence),
{
    if record.acknowledged_sequence < sequence {
        record.acknowledged_sequence = sequence;
    }
}

/// The most bytes of a log that are sent at once.
pub const CHUNK: u64 = 65536;

/// A part of a log that is to be sent.
#[derive(Clone, Copy, Debug, PartialEq, Eq, Structural)]
pub struct Upload {
    pub offset: u64,
    pub length: u64,
    /// True when nothing follows.
    pub complete: bool,
}

/// The part of a log of so many bytes that is next to be sent: what follows the acknowledged bytes,
/// at most a chunk of it; an ended attempt's log is also told to be complete, though nothing of it
/// is left to send.
pub open spec fn next_upload(record: RecordView, stored: u64) -> Option<Upload> {
    let left = stored - record.log_offset;
    let length = if left < CHUNK {
        left
    } else {
        CHUNK as int
    };
    if left > 0 || (record.state.terminal() && !record.log_complete_acknowledged) {
        Some(
            Upload {
                offset: record.log_offset,
                length: length as u64,
                complete: record.state.terminal() && length == left,
            },
        )
    } else {
        None
    }
}

/// Plans what is next to be sent of a log; more than is stored cannot have been acknowledged.
pub fn plan_upload(record: &SpoolRecord, stored: u64) -> (r: Result<Option<Upload>, String>)
    ensures
        match r {
            Ok(upload) => record.log_offset <= stored && upload == next_upload(record@, stored),
            Err(error) => record.log_offset > stored && error@
                == "acknowledged log offset exceeds local spool length"@,
        },
{
    if record.log_offset > stored {
        return Err("acknowledged log offset exceeds local spool length".to_owned());
    }
    let left: u64 = stored - record.log_offset;
    if left == 0 && (!record.state.is_terminal() || record.log_complete_acknowledged) {
        return Ok(None);
    }
    let length: u64 = if left < CHUNK {
        left
    } else {
        CHUNK
    };
    Ok(
        Some(
            Upload {
                offset: record.log_offset,
                length,
                complete: record.state.is_terminal() && length == left,
            },
        ),
    )
}

/// The offset that the server says it has the log up to: its answer where it is a number, else the
/// offset that was sent.
pub open spec fn acknowledged_offset(header: Option<Seq<char>>, sent: u64) -> u64 {
    match header {
        Some(value) => match text::unsigned_number(value) {
            Some(offset) => offset,
            None => sent,
        },
        None => sent,
    }
}

/// What the server's word on a piece of a log makes of a record.
pub open spec fn log_acknowledged(
    before: RecordView,
    after: RecordView,
    header: Option<Seq<char>>,
    sent: Upload,
) -> bool {
    after == (RecordView {
        log_offset: greater(
            before.log_offset,
            acknowledged_offset(
                header,
                sent.offset,
            ),
        ),
        log_complete_acknowledged: before.log_complete_acknowledged || sent.complete,
        ..before
    })
}

/// Notes that the server has taken a part of a log.
pub fn acknowledge_log(record: &mut SpoolRecord, header: Option<&str>, sent: Upload)
    ensures
        log_acknowledged(
            old(record)@,
            final(record)@,
            match header {
                Some(value) => Some(value@),
                None => None,
            },
            sent,
        ),
{
    let offset: u64 = match header {
        Some(value) => match text::parse_unsigned(value) {
            Some(offset) => offset,
            None => sent.offset,
        },
        None => sent.offset,
    };
    if record.log_offset < offset {
        record.log_offset = offset;
    }
    if sent.complete {
        record.log_complete_acknowledged = true;
    }
}

/// What the name of a file in the spool says of it.
#[derive(Clone, Copy, Debug, PartialEq, Eq, Structural)]
pub enum SpoolFile {
    Record,
    Retired,
    Other,
}

/// What the name of a file in the spool says of it.
pub open spec fn file_kind(name: Seq<char>) -> SpoolFile {
    if path::suffix_of(name) == Some("json"@) {
        SpoolFile::Record
    } else if path::suffix_of(name) == Some("retired"@) {
        SpoolFile::Retired
    } else {
        SpoolFile::Other
    }
}

/// Tells what the name of a file in the spool says of it.
pub fn spool_file(name: &str) -> (r: SpoolFile)
    ensures
        r == file_kind(name@),
{
    match path::suffix(name) {
        Some(suffix) => {
            proof {
                reveal_strlit("json");
                reveal_strlit("retired");
                assert("json"@.len() != "retired"@.len());
            }
            if text::same(suffix.as_str(), "json") {
                SpoolFile::Record
            } else if text::same(suffix.as_str(), "retired") {
                SpoolFile::Retired
            } else {
                SpoolFile::Other
            }
        },
        None => SpoolFile::Other,
    }
}

/// What the server is told of an attempt that the agent owns.
pub struct OwnedView {
    pub run_id: Seq<char>,
    pub attempt: u32,
    pub state: AttemptState,
}

/// What is told of attempts.
pub open spec fn owned_views(owned: Seq<OwnedAttempt>) -> Seq<OwnedView> {
    owned.map_values(
        |one: OwnedAttempt| OwnedView { run_id: one.run_id@, attempt: one.attempt, state: one.state },
    )
}

/// The attempts that have not ended, in the order of their records.
pub open spec fn unended(records: Seq<SpoolRecord>) -> Seq<OwnedView>
    decreases records.len(),
{
    if records.len() == 0 {
        Seq::empty()
    } else {
        let last = records.last();
        let before = unended(records.drop_last());
        if last.state.terminal() {
            before
        } else {
            before.push(OwnedView { run_id: last.run_id@, attempt: last.attempt, state: last.state })
        }
    }
}

/// The attempts that the agent owns: those that have not ended.
pub fn owned(records: &Vec<SpoolRecord>) -> (r: Vec<OwnedAttempt>)
    ensures
        owned_views(r@) == unended(records@),
{
    let mut out: Vec<OwnedAttempt> = Vec::new();
    let mut i: usize = 0;
    assert(owned_views(out@) =~= unended(records@.take(0)));
    while i < records.len()
        invariant
            i <= records.len(),
            owned_views(out@) == unended(records@.take(i as int)),
        decreases records.len() - i,
    {
        let record: &SpoolRecord = &records[i];
        proof {
            assert(records@.take(i + 1).drop_last() == records@.take(i as int));
            assert(records@.take(i + 1).last() == *record);
        }
        if !record.state.is_terminal() {
            let ghost before = out@;
            let one: OwnedAttempt = OwnedAttempt {
                run_id: record.run_id.clone(),
                attempt: record.attempt,
                state: record.state,
            };
            out.push(one);
            assert(owned_views(out@) =~= owned_views(before).push(
                OwnedView { run_id: one.run_id@, attempt: one.attempt, state: one.state },
            ));
        }
        i = i + 1;
    }
    assert(records@.take(records@.len() as int) == records@);
    out
}

/// Who an agent is: the version it was built as, its installation and the process.
#[derive(Debug, PartialEq, Eq)]
pub struct AgentIdentity {
    pub version: String,
    pub instance: String,
    pub boot: String,
}

/// What an agent reports of itself.
pub open spec fn is_poll(
    config: Config,
    identity: AgentIdentity,
    sequence: u64,
    running: Vec<OwnedAttempt>,
    active: usize,
    free_bytes: Option<u64>,
    capabilities: Vec<String>,
    health: Option<PublicationHealth>,
    r: PollRequest,
) -> bool {
    &&& r.protocol_version@ == PROTOCOL_VERSION@
    &&& r.agent_version@ == identity.version@
    &&& r.agent_instance_id@ == identity.instance@
    &&& r.agent_boot_id@ == identity.boot@
    &&& r.poll_sequence == sequence
    &&& r.running == running
    &&& r.capacity.mirror_root_free_bytes == free_bytes
    &&& r.capacity.active_runs == (if active <= u32::MAX {
        active as int
    } else {
        u32::MAX as int
    })
    &&& r.capacity.max_concurrent_runs == config.execution.max_concurrent_runs
    &&& r.mirror_root@ == config.storage.mirror_root@
    &&& r.capabilities == capabilities
    &&& text::opt_view(r.publication_root) == text::opt_view(config.storage.publication_root)
    &&& r.publication_health == health
}

/// What the agent asks the server with: who it is, what it owns and what it has room for.
pub fn poll_request(
    config: &Config,
    identity: &AgentIdentity,
    sequence: u64,
    running: Vec<OwnedAttempt>,
    active: usize,
    free_bytes: Option<u64>,
    capabilities: Vec<String>,
    health: Option<PublicationHealth>,
) -> (r: PollRequest)
    ensures
        is_poll(*config, *identity, sequence, running, active, free_bytes, capabilities, health, r),
{
    let active_runs: u32 = if active as u64 <= u32::MAX as u64 {
        active as u32
    } else {
        u32::MAX
    };
    PollRequest {
        protocol_version: PROTOCOL_VERSION.to_owned(),
        agent_version: identity.version.clone(),
        agent_instance_id: identity.instance.clone(),
        agent_boot_id: identity.boot.clone(),
        poll_sequence: sequence,
        running,
        capacity: Capacity {
            mirror_root_free_bytes: free_bytes,
            active_runs,
            max_concurrent_runs: config.execution.max_concurrent_runs,
        },
        mirror_root: config.storage.mirror_root.clone(),
        capabilities,
        publication_root: text::clone_opt(&config.storage.publication_root),
        publication_health: health,
    }
}

/// An attempt that the agent knows is never executed a second time, and one that is known with
/// another specification keeps the one it has.
pub proof fn law_known_attempts_do_not_start_again(
    config: Config,
    known: Seq<char>,
    executing: bool,
    active: nat,
    offer: Offer,
    now: Seq<char>,
)
    ensures
        ({
            let outcome = acceptance(config, Some(known), executing, active, offer, now);
            &&& !(outcome is Started)
            &&& !(outcome is Rejected)
            &&& outcome is Conflict <==> known != offer.spec_hash@
        }),
{
}

/// A cancellation that comes before its attempt leaves a record under the attempt's specification,
/// so that the attempt is not executed when it arrives, and neither after a restart.
pub proof fn law_cancelled_attempts_never_start(
    config: Config,
    executing: bool,
    active: nat,
    offer: Offer,
    now: Seq<char>,
    later: Seq<char>,
)
    ensures
        ({
            let left = cancellation(Found::Absent, offer.run_id@, offer.attempt, offer.spec_hash@, now);
            &&& left is Tombstone
            &&& left->Tombstone_0.state is Cancelled
            &&& left->Tombstone_0.spec is None
            &&& acceptance(config, Some(left->Tombstone_0.spec_hash), executing, active, offer, later) is Known
            &&& restarted(left->Tombstone_0, later) == RestartView::Kept(left->Tombstone_0)
        }),
{
}

/// What the agent executes stays below its mirror root.
pub proof fn law_executed_attempts_stay_below_the_root(
    config: Config,
    known: Option<Seq<char>>,
    executing: bool,
    active: nat,
    offer: Offer,
    now: Seq<char>,
)
    requires
        acceptance(config, known, executing, active, offer, now) is Started,
    ensures
        path::leads_into(offer.spec.target_dir@, config.storage.mirror_root@),
        offer.spec.cwd is Some ==> path::leads_into((offer.spec.cwd->0)@, config.storage.mirror_root@),
        active < config.execution.max_concurrent_runs,
{
}

/// After a restart no attempt is left open, and one that had ended stays as it was.
pub proof fn law_restarts_leave_nothing_open(record: RecordView, now: Seq<char>)
    ensures
        match restarted(record, now) {
            RestartView::Kept(left) => left == record && left.state.terminal(),
            RestartView::Ended(left) => left.state.terminal() && left.finished_at == Some(now),
        },
{
}

/// The log is sent from front to back without a gap, and it is complete exactly when an ended
/// attempt's last byte is sent.
pub proof fn law_logs_are_sent_in_order(record: RecordView, stored: u64)
    requires
        record.log_offset <= stored,
    ensures
        match next_upload(record, stored) {
            Some(upload) => {
                &&& upload.offset == record.log_offset
                &&& upload.offset + upload.length <= stored
                &&& upload.length <= CHUNK
                &&& upload.complete <==> record.state.terminal() && upload.offset + upload.length == stored
                &&& upload.length == 0 ==> upload.complete
            },
            None => record.log_offset == stored && (record.state.terminal() ==> record.log_complete_acknowledged),
        },
{
}

/// An attempt is started where it is not known yet, the agent has room, it is let to execute processes and the
/// attempt stays below the mirror root of this agent; it is then the offered one, accepted now.
pub proof fn law_offers_are_started_where_they_may(
    config: Config,
    known: Option<Seq<char>>,
    executing: bool,
    active: nat,
    offer: Offer,
    now: Seq<char>,
)
    ensures
        ({
            let r = acceptance(config, known, executing, active, offer, now);
            let room = !executing && active < config.execution.max_concurrent_runs;
            let spec = spec_view(offer.spec);
            let allowed = config.runner.process.enabled && spec.runner == "process"@ && spec.mirror_root
                == config.storage.mirror_root@ && path::leads_into(spec.target_dir, config.storage.mirror_root@) && (
            spec.cwd is Some ==> path::leads_into(spec.cwd->0, config.storage.mirror_root@));
            &&& r is Started <==> known is None && room && allowed
            &&& r is Rejected <==> known is None && room && !allowed
            &&& r is Ignored <==> known is None && !room
            &&& r is Known <==> known == Some(offer.spec_hash@)
            &&& r is Conflict <==> known is Some && known->0 != offer.spec_hash@
            &&& r is Started ==> {
                let record = r->Started_0;
                &&& record.run_id == offer.run_id@
                &&& record.attempt == offer.attempt
                &&& record.spec_hash == offer.spec_hash@
                &&& record.spec == Some(spec)
                &&& record.state == AttemptState::Accepted
                &&& record.accepted_at == Some(now)
                &&& record.started_at is None && record.finished_at is None && record.exit_code is None
                &&& record.sequence == 1 && record.acknowledged_sequence == 0
                &&& record.log_offset == 0 && !record.log_complete_acknowledged && !record.cancel_requested
                &&& record.publication is Some <==> spec.publication is Some
                &&& record.publication is Some ==> record.publication->0.phase == PublicationPhase::Executing
            }
            &&& r is Rejected ==> {
                let record = r->Rejected_0;
                &&& record.run_id == offer.run_id@
                &&& record.attempt == offer.attempt
                &&& record.spec_hash == offer.spec_hash@
                &&& record.state == AttemptState::Rejected
                &&& record.failure_kind == Some(FailureKind::Rejected)
                &&& record.finished_at == Some(now)
                &&& record.sequence == 2 && record.acknowledged_sequence == 0
            }
        }),
{
}

/// A cancellation is kept with the attempt it is for: one that has not ended is asked to end and goes on
/// as it was, one that has ended stays, one that has not come yet is held as cancelled, and one under
/// another fingerprint is not touched.
pub proof fn law_cancellations_are_kept_with_their_attempt(
    found: Found,
    run_id: Seq<char>,
    attempt: u32,
    spec_hash: Seq<char>,
    now: Seq<char>,
)
    ensures
        ({
            let r = cancellation(found, run_id, attempt, spec_hash, now);
            &&& r is Unreadable <==> found is Unreadable
            &&& r is Tombstone <==> found is Absent
            &&& r is Conflict <==> found is Record && found->Record_0@.spec_hash != spec_hash
            &&& r is Requested <==> found is Record && found->Record_0@.spec_hash == spec_hash && (found->Record_0@.state
                == AttemptState::Queued || found->Record_0@.state == AttemptState::Accepted || found->Record_0@.state
                == AttemptState::Running)
            &&& r is Requested ==> r->Requested_0.cancel_requested && r->Requested_0.state == found->Record_0@.state
                && r->Requested_0.sequence == found->Record_0@.sequence && r->Requested_0.acknowledged_sequence
                == found->Record_0@.acknowledged_sequence && r->Requested_0.run_id == found->Record_0@.run_id
                && r->Requested_0.attempt == found->Record_0@.attempt && r->Requested_0.publication
                == found->Record_0@.publication
            &&& r is Ended ==> r->Ended_0 == found->Record_0@
            &&& r is Tombstone ==> r->Tombstone_0.run_id == run_id && r->Tombstone_0.attempt == attempt
                && r->Tombstone_0.spec_hash == spec_hash && r->Tombstone_0.state == AttemptState::Cancelled
                && r->Tombstone_0.finished_at == Some(now) && r->Tombstone_0.acknowledged_sequence < r->Tombstone_0.sequence
        }),
{
}

/// What was under way when the agent stopped is over when it starts again: cancelled where that was asked
/// for, and else interrupted; what had ended stays.
pub proof fn law_restarts_interrupt_what_was_under_way(record: RecordView, now: Seq<char>)
    requires
        record.sequence < u64::MAX,
    ensures
        ({
            let open = record.state == AttemptState::Queued || record.state == AttemptState::Accepted || record.state
                == AttemptState::Running;
            &&& restarted(record, now) is Kept <==> !open
            &&& !open ==> restarted(record, now)->Kept_0 == record
            &&& open ==> {
                let after = restarted(record, now)->Ended_0;
                &&& record.cancel_requested ==> after.state == AttemptState::Cancelled && after.failure_kind is None
                &&& !record.cancel_requested ==> after.state == AttemptState::Interrupted && after.failure_kind == Some(
                    FailureKind::Interrupted,
                )
                &&& after.exit_code is None
                &&& after.finished_at == Some(now)
                &&& after.sequence == record.sequence + 1
                &&& after.acknowledged_sequence == record.acknowledged_sequence
                &&& after.run_id == record.run_id && after.attempt == record.attempt && after.spec_hash == record.spec_hash
                &&& after.started_at == record.started_at && after.log_offset == record.log_offset
                &&& after.publication == record.publication
            }
        }),
{
}

/// What the server has not acknowledged is reported, as it stands; that an attempt was accepted comes first.
pub proof fn law_what_is_unacknowledged_is_reported(record: RecordView, instance: Seq<char>, r: Option<EventRequest>)
    requires
        event_pending(record, instance, r),
    ensures
        r is Some <==> record.sequence > record.acknowledged_sequence,
        r is Some ==> {
            let event = r->0;
            let first = record.acknowledged_sequence == 0 && record.sequence > 1;
            &&& event.agent_instance_id@ == instance
            &&& first ==> event.event_sequence == 1 && event.state == AttemptState::Accepted
            &&& !first ==> event.event_sequence == record.sequence && event.state == record.state
            &&& event.event_sequence > record.acknowledged_sequence
            &&& event.event_sequence <= record.sequence
            &&& event.exit_code == record.exit_code
            &&& event.failure_kind == record.failure_kind
            &&& text::opt_view(event.accepted_at) == record.accepted_at
            &&& text::opt_view(event.started_at) == record.started_at
            &&& text::opt_view(event.finished_at) == record.finished_at
            &&& text::opt_view(event.failure_message) == record.failure_message
        },
{
}

/// The server's word is kept, the farthest that it gave: of events by their number, of the log by its
/// offset, which stays where the answer gives none; and nothing else of the record changes.
pub proof fn law_acknowledgements_are_kept(
    before: RecordView,
    after_event: RecordView,
    after_log: RecordView,
    sequence: u64,
    header: Option<Seq<char>>,
    sent: Upload,
)
    requires
        event_acknowledged(before, after_event, sequence),
        log_acknowledged(before, after_log, header, sent),
    ensures
        after_event.acknowledged_sequence >= before.acknowledged_sequence,
        after_event.acknowledged_sequence >= sequence,
        after_event.acknowledged_sequence == before.acknowledged_sequence || after_event.acknowledged_sequence == sequence,
        after_event.state == before.state && after_event.sequence == before.sequence && after_event.log_offset
            == before.log_offset && after_event.cancel_requested == before.cancel_requested
            && after_event.log_complete_acknowledged == before.log_complete_acknowledged && after_event.publication
            == before.publication,
        after_log.log_offset >= before.log_offset,
        header is Some && text::unsigned_number(header->0) is Some ==> after_log.log_offset >= text::unsigned_number(header->0)->0
            && (after_log.log_offset == before.log_offset || after_log.log_offset == text::unsigned_number(header->0)->0),
        (header is None || text::unsigned_number(header->0) is None) && sent.offset <= before.log_offset
            ==> after_log.log_offset == before.log_offset,
        after_log.log_complete_acknowledged <==> before.log_complete_acknowledged || sent.complete,
        after_log.state == before.state && after_log.sequence == before.sequence && after_log.acknowledged_sequence
            == before.acknowledged_sequence && after_log.cancel_requested == before.cancel_requested && after_log.publication
            == before.publication,
{
}

/// As much of a log is sent at a time as is left, but no more than a fixed piece; something is sent where
/// something is left, and of an attempt that has ended until the server has its whole log.
pub proof fn law_logs_are_sent_until_they_are_whole(record: RecordView, stored: u64)
    requires
        record.log_offset <= stored,
    ensures
        ({
            let open = record.state == AttemptState::Queued || record.state == AttemptState::Accepted || record.state
                == AttemptState::Running;
            let upload = next_upload(record, stored);
            &&& upload is Some <==> record.log_offset < stored || (!open && !record.log_complete_acknowledged)
            &&& upload is Some ==> upload->0.offset == record.log_offset
            &&& upload is Some && stored - record.log_offset <= 65536 ==> upload->0.length == stored - record.log_offset
            &&& upload is Some && stored - record.log_offset > 65536 ==> upload->0.length == 65536
            &&& upload is Some ==> (upload->0.complete <==> !open && stored - record.log_offset <= 65536)
        }),
{
}

/// What an agent owns is what it has not ended, each once and in the order of its records.
pub proof fn law_owned_attempts_are_those_under_way(records: Seq<SpoolRecord>, i: int)
    requires
        0 <= i < records.len(),
        records[i].state == AttemptState::Queued || records[i].state == AttemptState::Accepted || records[i].state
            == AttemptState::Running,
    ensures
        exists|k: int|
            0 <= k < unended(records).len() && (#[trigger] unended(records)[k]).run_id == records[i].run_id@ && unended(
                records,
            )[k].attempt == records[i].attempt && unended(records)[k].state == records[i].state,
    decreases records.len(),
{
    let all = unended(records);
    if i == records.len() - 1 {
        assert(all[all.len() - 1].run_id == records[i].run_id@);
    } else {
        let rest = records.drop_last();
        assert(rest[i] == records[i]);
        law_owned_attempts_are_those_under_way(rest, i);
        let k = choose|k: int|
            0 <= k < unended(rest).len() && (#[trigger] unended(rest)[k]).run_id == records[i].run_id@ && unended(
                rest,
            )[k].attempt == records[i].attempt && unended(rest)[k].state == records[i].state;
        assert(all[k] == unended(rest)[k]);
    }
}

/// Nothing is owned that has ended.
pub proof fn law_ended_attempts_are_not_owned(records: Seq<SpoolRecord>, k: int)
    requires
        0 <= k < unended(records).len(),
    ensures
        unended(records)[k].state == AttemptState::Queued || unended(records)[k].state == AttemptState::Accepted || unended(
            records,
        )[k].state == AttemptState::Running,
        exists|i: int|
            0 <= i < records.len() && (#[trigger] records[i]).run_id@ == unended(records)[k].run_id && records[i].attempt
                == unended(records)[k].attempt,
        unended(records).len() <= records.len(),
    decreases records.len(),
{
    let rest = records.drop_last();
    if k < unended(rest).len() {
        law_ended_attempts_are_not_owned(rest, k);
        let i = choose|i: int|
            0 <= i < rest.len() && (#[trigger] rest[i]).run_id@ == unended(rest)[k].run_id && rest[i].attempt == unended(
                rest,
            )[k].attempt;
        assert(records[i] == rest[i]);
    } else {
        if unended(rest).len() > 0 {
            law_ended_attempts_are_not_owned(rest, 0);
        }
        assert(records[records.len() - 1] == records.last());
    }
}

/// An agent reports itself as it is set up and as it stands.
pub proof fn law_agents_report_themselves(
    config: Config,
    identity: AgentIdentity,
    sequence: u64,
    running: Vec<OwnedAttempt>,
    active: usize,
    free_bytes: Option<u64>,
    capabilities: Vec<String>,
    health: Option<PublicationHealth>,
    r: PollRequest,
)
    requires
        is_poll(config, identity, sequence, running, active, free_bytes, capabilities, health, r),
    ensures
        r.agent_instance_id@ == identity.instance@ && r.agent_boot_id@ == identity.boot@ && r.agent_version@ == identity.version@,
        r.poll_sequence == sequence,
        r.running@ == running@,
        r.capabilities@ == capabilities@,
        active <= u32::MAX ==> r.capacity.active_runs == active,
        r.capacity.max_concurrent_runs == config.execution.max_concurrent_runs,
        r.capacity.mirror_root_free_bytes == free_bytes,
        r.mirror_root@ == config.storage.mirror_root@,
        r.publication_root is Some <==> config.storage.publication_root is Some,
        r.publication_root is Some ==> r.publication_root->0@ == config.storage.publication_root->0@,
        r.publication_health == health,
{
}

} // verus!
