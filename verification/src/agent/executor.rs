//! How an execution begins and ends, as its record tells it.
use super::spool::EndView;
use super::spool::PublicationPhase;
use super::spool::RecordView;
use super::spool::SpoolRecord;
use crate::domain::state::AttemptState;
use crate::domain::state::FailureKind;
use vstd::prelude::*;

verus! {

/// How an execution came to its end.
#[derive(Debug, PartialEq, Eq)]
pub enum Outcome<T> {
    /// The process ended by itself, with success or not.
    Process { success: bool, code: Option<i32> },
    /// The process could not be waited for.
    Lost(T),
    TimedOut,
    Shutdown,
    Cancelled,
}

/// The outcome with the text of its error.
pub open spec fn outcome_view(outcome: Outcome<String>) -> Outcome<Seq<char>> {
    match outcome {
        Outcome::Process { success, code } => Outcome::Process { success, code },
        Outcome::Lost(error) => Outcome::Lost(error@),
        Outcome::TimedOut => Outcome::TimedOut,
        Outcome::Shutdown => Outcome::Shutdown,
        Outcome::Cancelled => Outcome::Cancelled,
    }
}

/// The record of an execution that has begun; a cancellation that was written meanwhile stays.
pub open spec fn started(record: RecordView, cancelled: bool, now: Seq<char>) -> RecordView {
    RecordView {
        state: AttemptState::Running,
        sequence: (record.sequence + 1) as u64,
        started_at: Some(now),
        cancel_requested: record.cancel_requested || cancelled,
        ..record
    }
}

/// Notes that the execution has begun.
pub fn start(record: &mut SpoolRecord, cancelled: bool, now: &str)
    requires
        old(record).sequence < u64::MAX,
    ensures
        final(record)@ == started(old(record)@, cancelled, now@),
{
    record.state = AttemptState::Running;
    record.sequence = record.sequence + 1;
    record.started_at = Some(now.to_owned());
    if cancelled {
        record.cancel_requested = true;
    }
}

/// Notes a cancellation that was written meanwhile.
pub fn note_cancellation(record: &mut SpoolRecord, cancelled: bool)
    ensures
        final(record)@ == (RecordView {
            cancel_requested: old(record).cancel_requested || cancelled,
            ..old(record)@
        }),
{
    if cancelled {
        record.cancel_requested = true;
    }
}

/// How a cancelled attempt ends.
pub open spec fn cancelled_end() -> EndView {
    EndView { state: AttemptState::Cancelled, exit_code: None, kind: None, message: None }
}

/// How an execution ends an attempt; none where its candidate is to be published first.
pub open spec fn end_of(record: RecordView, outcome: Outcome<Seq<char>>) -> Option<EndView> {
    if record.cancel_requested {
        Some(cancelled_end())
    } else {
        match outcome {
            Outcome::Process { success, code } => if success && record.publication is Some {
                None
            } else if success {
                Some(
                    EndView { state: AttemptState::Succeeded, exit_code: code, kind: None, message: None },
                )
            } else {
                Some(
                    EndView {
                        state: AttemptState::Failed,
                        exit_code: code,
                        kind: Some(FailureKind::Process),
                        message: Some("process exited non-zero"@),
                    },
                )
            },
            Outcome::Lost(error) => Some(
                EndView {
                    state: AttemptState::Interrupted,
                    exit_code: None,
                    kind: Some(FailureKind::Interrupted),
                    message: Some(error),
                },
            ),
            Outcome::Shutdown => Some(
                EndView {
                    state: AttemptState::Interrupted,
                    exit_code: None,
                    kind: Some(FailureKind::Interrupted),
                    message: Some("agent shutdown"@),
                },
            ),
            Outcome::TimedOut => Some(
                EndView {
                    state: AttemptState::TimedOut,
                    exit_code: None,
                    kind: Some(FailureKind::Timeout),
                    message: Some("attempt timed out"@),
                },
            ),
            Outcome::Cancelled => Some(cancelled_end()),
        }
    }
}

/// What the end of a process makes of an attempt.
pub open spec fn finalized(
    before: RecordView,
    after: RecordView,
    outcome: Outcome<Seq<char>>,
    now: Seq<char>,
    publish: bool,
) -> bool {
    match end_of(before, outcome) {
        Some(end) => !publish && after == before.ended(end, now),
        None => publish && after == before,
    }
}

/// Ends the attempt as its execution did; true where its candidate is to be published first, and
/// nothing has been changed.
pub fn finalize(record: &mut SpoolRecord, outcome: Outcome<String>, now: &str) -> (publish: bool)
    requires
        old(record).sequence < u64::MAX,
    ensures
        finalized(old(record)@, final(record)@, outcome_view(outcome), now@, publish),
{
    if record.cancel_requested {
        record.terminal(AttemptState::Cancelled, None, None, None, now.to_owned());
        return false;
    }
    match outcome {
        Outcome::Process { success, code } => {
            if success && record.publication.is_some() {
                return true;
            }
            if success {
                record.terminal(AttemptState::Succeeded, code, None, None, now.to_owned());
            } else {
                record.terminal(
                    AttemptState::Failed,
                    code,
                    Some(FailureKind::Process),
                    Some("process exited non-zero".to_owned()),
                    now.to_owned(),
                );
            }
        },
        Outcome::Lost(error) => record.terminal(
            AttemptState::Interrupted,
            None,
            Some(FailureKind::Interrupted),
            Some(error),
            now.to_owned(),
        ),
        Outcome::Shutdown => record.terminal(
            AttemptState::Interrupted,
            None,
            Some(FailureKind::Interrupted),
            Some("agent shutdown".to_owned()),
            now.to_owned(),
        ),
        Outcome::TimedOut => record.terminal(
            AttemptState::TimedOut,
            None,
            Some(FailureKind::Timeout),
            Some("attempt timed out".to_owned()),
            now.to_owned(),
        ),
        Outcome::Cancelled => record.terminal(AttemptState::Cancelled, None, None, None, now.to_owned()),
    }
    false
}

/// What a publication that failed makes of an attempt.
pub open spec fn publication_ended(
    before: RecordView,
    after: RecordView,
    code: Option<i32>,
    error: Seq<char>,
    now: Seq<char>,
    ended: bool,
) -> bool {
    &&& ended == (before.publication is Some && !before.protected())
    &&& after == (if ended {
        before.ended(
            EndView {
                state: AttemptState::Failed,
                exit_code: code,
                kind: Some(FailureKind::InvalidResult),
                message: Some(error),
            },
            now,
        )
    } else {
        before
    })
}

/// Ends the attempt whose publication came to an error, unless names may have been moved for it: then
/// the record stays, and the publication is recovered later.
pub fn publication_failed(record: &mut SpoolRecord, code: Option<i32>, error: String, now: &str) -> (ended: bool)
    requires
        old(record).sequence < u64::MAX,
    ensures
        publication_ended(old(record)@, final(record)@, code, error@, now@, ended),
{
    let executing: bool = match &record.publication {
        Some(publication) => publication.phase == PublicationPhase::Executing,
        None => false,
    };
    if executing {
        record.terminal(
            AttemptState::Failed,
            code,
            Some(FailureKind::InvalidResult),
            Some(error),
            now.to_owned(),
        );
    }
    executing
}

/// How an attempt ends that could not be begun.
pub open spec fn unbegun(record: RecordView, kind: FailureKind, error: Seq<char>) -> EndView {
    if record.cancel_requested {
        cancelled_end()
    } else {
        EndView { state: AttemptState::Failed, exit_code: None, kind: Some(kind), message: Some(error) }
    }
}

/// What an attempt comes to that could not begin.
pub open spec fn start_failed(
    before: RecordView,
    after: RecordView,
    cancelled: bool,
    kind: FailureKind,
    error: Seq<char>,
    now: Seq<char>,
) -> bool {
    after == ({
        let noted = RecordView {
            cancel_requested: before.cancel_requested || cancelled,
            ..before
        };
        noted.ended(unbegun(noted, kind, error), now)
    })
}

fn fail_start(record: &mut SpoolRecord, cancelled: bool, kind: FailureKind, error: String, now: &str)
    requires
        old(record).sequence < u64::MAX,
    ensures
        start_failed(old(record)@, final(record)@, cancelled, kind, error@, now@),
{
    note_cancellation(record, cancelled);
    if record.cancel_requested {
        record.terminal(AttemptState::Cancelled, None, None, None, now.to_owned());
    } else {
        record.terminal(AttemptState::Failed, None, Some(kind), Some(error), now.to_owned());
    }
}

/// Ends an attempt whose candidate could not be prepared.
pub fn preparation_failed(record: &mut SpoolRecord, cancelled: bool, error: String, now: &str)
    requires
        old(record).sequence < u64::MAX,
    ensures
        start_failed(old(record)@, final(record)@, cancelled, FailureKind::InvalidResult, error@, now@),
{
    fail_start(record, cancelled, FailureKind::InvalidResult, error, now);
}

/// Ends an attempt whose process could not be started.
pub fn spawn_failed(record: &mut SpoolRecord, cancelled: bool, error: String, now: &str)
    requires
        old(record).sequence < u64::MAX,
    ensures
        start_failed(old(record)@, final(record)@, cancelled, FailureKind::Process, error@, now@),
{
    fail_start(record, cancelled, FailureKind::Process, error, now);
}

/// What the process wrote, and to which of its two outputs.
#[derive(Debug, PartialEq, Eq)]
pub enum Frame {
    Stdout(Vec<u8>),
    Stderr(Vec<u8>),
}

/// The mark of an output in the log: its name in brackets and a space.
pub open spec fn mark(frame: Frame) -> Seq<u8> {
    match frame {
        Frame::Stdout(_) => seq![0x5b, 0x73, 0x74, 0x64, 0x6f, 0x75, 0x74, 0x5d, 0x20],
        Frame::Stderr(_) => seq![0x5b, 0x73, 0x74, 0x64, 0x65, 0x72, 0x72, 0x5d, 0x20],
    }
}

/// What the process wrote.
pub open spec fn written(frame: Frame) -> Seq<u8> {
    match frame {
        Frame::Stdout(bytes) => bytes@,
        Frame::Stderr(bytes) => bytes@,
    }
}

/// What is added to the log for what the process wrote: the mark of its output, then the bytes.
pub fn frame_bytes(frame: Frame) -> (r: Vec<u8>)
    ensures
        r@ == mark(frame) + written(frame),
{
    match frame {
        Frame::Stdout(bytes) => {
            let mut out: Vec<u8> = vec![0x5b, 0x73, 0x74, 0x64, 0x6f, 0x75, 0x74, 0x5d, 0x20];
            let mut rest: Vec<u8> = bytes;
            out.append(&mut rest);
            out
        },
        Frame::Stderr(bytes) => {
            let mut out: Vec<u8> = vec![0x5b, 0x73, 0x74, 0x64, 0x65, 0x72, 0x72, 0x5d, 0x20];
            let mut rest: Vec<u8> = bytes;
            out.append(&mut rest);
            out
        },
    }
}

/// Every execution ends its attempt, or hands its finished candidate on to be published, and a
/// cancelled attempt is never published.
pub proof fn law_executions_end(record: RecordView, outcome: Outcome<Seq<char>>)
    ensures
        match end_of(record, outcome) {
            Some(end) => end.state.terminal() && (record.cancel_requested ==> end.state is Cancelled),
            None => record.publication is Some && !record.cancel_requested,
        },
{
}

/// An attempt ends as its process did: it succeeded where the process did, unless it was to be published,
/// which comes first; it failed with the process's own code where that failed; it ran out of time, or was
/// interrupted where the process was lost or the agent stops. Where a cancellation was asked for, it is
/// cancelled whatever the process did.
pub proof fn law_attempts_end_as_their_process(
    before: RecordView,
    after: RecordView,
    outcome: Outcome<Seq<char>>,
    now: Seq<char>,
    publish: bool,
)
    requires
        before.sequence < u64::MAX,
        finalized(before, after, outcome, now, publish),
    ensures
        publish <==> !before.cancel_requested && outcome is Process && outcome->success && before.publication is Some,
        publish ==> after == before,
        !publish ==> {
            &&& after.finished_at == Some(now)
            &&& after.sequence == before.sequence + 1
            &&& after.acknowledged_sequence == before.acknowledged_sequence
            &&& after.started_at == before.started_at && after.accepted_at == before.accepted_at
            &&& after.run_id == before.run_id && after.attempt == before.attempt && after.publication == before.publication
            &&& after.state == AttemptState::Cancelled <==> before.cancel_requested || outcome is Cancelled
            &&& !before.cancel_requested ==> {
                &&& after.state == AttemptState::Succeeded <==> outcome is Process && outcome->success
                &&& after.state == AttemptState::Failed <==> outcome is Process && !outcome->success
                &&& after.state == AttemptState::TimedOut <==> outcome is TimedOut
                &&& after.state == AttemptState::Interrupted <==> outcome is Lost || outcome is Shutdown
                &&& outcome is Process ==> after.exit_code == outcome->code
                &&& outcome is Lost ==> after.failure_message == Some(outcome->Lost_0)
            }
            &&& after.failure_kind == (match after.state {
                AttemptState::Failed => Some(FailureKind::Process),
                AttemptState::TimedOut => Some(FailureKind::Timeout),
                AttemptState::Interrupted => Some(FailureKind::Interrupted),
                _ => None,
            })
            &&& after.failure_kind is Some <==> after.failure_message is Some
        },
{
}

/// An attempt that could not begin failed for the reason that was given, or is cancelled where that was
/// asked for.
pub proof fn law_attempts_that_cannot_begin_fail(
    before: RecordView,
    after: RecordView,
    cancelled: bool,
    kind: FailureKind,
    error: Seq<char>,
    now: Seq<char>,
)
    requires
        before.sequence < u64::MAX,
        start_failed(before, after, cancelled, kind, error, now),
    ensures
        after.state == (if before.cancel_requested || cancelled { AttemptState::Cancelled } else { AttemptState::Failed }),
        after.state == AttemptState::Failed ==> after.failure_kind == Some(kind) && after.failure_message == Some(error),
        after.state == AttemptState::Cancelled ==> after.failure_kind is None && after.failure_message is None
            && after.cancel_requested,
        after.exit_code is None,
        after.finished_at == Some(now),
        after.sequence == before.sequence + 1,
        after.acknowledged_sequence == before.acknowledged_sequence,
{
}

/// An attempt whose result could not be published failed for that, with the code of its process, unless
/// names may have been moved for it already: then it is left for recovery.
pub proof fn law_unpublished_results_fail(
    before: RecordView,
    after: RecordView,
    code: Option<i32>,
    error: Seq<char>,
    now: Seq<char>,
    ended: bool,
)
    requires
        before.sequence < u64::MAX,
        publication_ended(before, after, code, error, now, ended),
    ensures
        ended <==> before.publication is Some && before.publication->0.phase is Executing,
        !ended ==> after == before,
        ended ==> after.state == AttemptState::Failed && after.failure_kind == Some(FailureKind::InvalidResult)
            && after.failure_message == Some(error) && after.exit_code == code && after.finished_at == Some(now)
            && after.sequence == before.sequence + 1 && after.publication == before.publication,
{
}

/// An attempt that begins runs from then on, which is one report more; a cancellation that came before is
/// kept.
pub proof fn law_attempts_begin_once(record: RecordView, cancelled: bool, now: Seq<char>)
    requires
        record.sequence < u64::MAX,
    ensures
        started(record, cancelled, now).state == AttemptState::Running,
        started(record, cancelled, now).sequence == record.sequence + 1,
        started(record, cancelled, now).started_at == Some(now),
        started(record, cancelled, now).accepted_at == record.accepted_at,
        started(record, cancelled, now).finished_at == record.finished_at,
        started(record, cancelled, now).cancel_requested <==> record.cancel_requested || cancelled,
        started(record, cancelled, now).acknowledged_sequence == record.acknowledged_sequence,
        started(record, cancelled, now).publication == record.publication,
{
}

/// What a process writes is kept whole behind a mark that tells the two streams apart; both marks are
/// equally long, so that what was written can be read back.
pub proof fn law_output_is_kept_whole(a: Frame, b: Frame)
    ensures
        (mark(a) + written(a)).skip(9) == written(a),
        mark(a) == mark(b) <==> (a is Stdout <==> b is Stdout),
        mark(a).len() == 9,
{
    assert((mark(a) + written(a)).skip(9) =~= written(a));
    assert(mark(a)[4] != mark(b)[4] || (a is Stdout <==> b is Stdout));
}

} // verus!
