//! The logs of runs: chunks that agents append, and parts that operators read.
use super::failure::failure;
use super::failure::Failure;
use super::failure::FailureView;
use super::settings;
use super::settings::Span;
use crate::domain::ids::RunId;
use crate::outside;
use crate::path;
use crate::store::logs::only_logs_change;
use crate::store::tables;
use crate::store::tables::AttemptRecord;
use crate::store::tables::LogMetadata;
use crate::store::tables::LogRow;
use crate::store::tables::Store;
use crate::store::wellformed;
use crate::text;
use vstd::prelude::*;
use vstd::utf8::encode_utf8;

verus! {

/// The largest chunk of a log, in bytes, that is taken or given at once.
pub const MAX_CHUNK: u64 = 1_048_576;

/// How many bytes of a log are given at once unless more are asked for.
pub const DEFAULT_CHUNK: u64 = 65_536;

/// The longest that a reader waits for more of a log, in seconds.
pub const MAX_WAIT_SECONDS: u64 = 20;

/// The file of a log below the directory of all logs.
pub open spec fn log_file(root: Seq<char>, run_id: Seq<char>, attempt_no: u32) -> Seq<char> {
    path::join_path(path::join_path(root, run_id), text::decimal(attempt_no as nat) + ".log"@)
}

/// The file of a log below the directory of all logs.
pub fn log_path(root: &str, run_id: &str, attempt_no: u32) -> (r: String)
    ensures
        r@ == log_file(root@, run_id@, attempt_no),
{
    path::join(
        path::join(root, run_id).as_str(),
        text::join2(text::decimal_text(attempt_no as u64).as_str(), ".log").as_str(),
    )
}

/// True when a text is a run identifier.
pub open spec fn is_run_id(value: Seq<char>) -> bool {
    encode_utf8(value).len() == 26 && outside::base32_digits(encode_utf8(value))
}

/// The one form of a run identifier.
pub open spec fn canonical_run_id(value: Seq<char>) -> Seq<char> {
    outside::base32_text(outside::base32_number(encode_utf8(value)), 26)
}

fn read_run_id(value: &str) -> (r: Option<String>)
    ensures
        text::opt_view(r) == (if is_run_id(value@) {
            Some(canonical_run_id(value@))
        } else {
            None
        }),
{
    match RunId::parse(value) {
        Ok(id) => Some(id.to_text()),
        Err(_) => None,
    }
}

/// Why a chunk is not appended to a log.
pub enum AppendFault {
    /// It begins behind the end of the log.
    Ahead,
    /// Its bytes differ from those of the log.
    Conflict,
}

/// How many bytes of a chunk a log already holds.
pub open spec fn overlap_of(stored: nat, offset: nat, length: nat) -> nat {
    if offset > stored {
        0
    } else if stored - offset < length {
        (stored - offset) as nat
    } else {
        length
    }
}

/// A log with a chunk that begins at an offset: what overlaps must be the same, the rest is appended.
pub open spec fn appended(log: Seq<u8>, offset: nat, body: Seq<u8>) -> Result<Seq<u8>, AppendFault> {
    let overlap = overlap_of(log.len(), offset, body.len());
    if offset > log.len() {
        Err(AppendFault::Ahead)
    } else if log.subrange(offset as int, (offset + overlap) as int) != body.take(overlap as int) {
        Err(AppendFault::Conflict)
    } else {
        Ok(log + body.skip(overlap as int))
    }
}

/// How a chunk that is not appended fails.
pub open spec fn append_failure(fault: AppendFault) -> FailureView {
    match fault {
        AppendFault::Ahead => failure(409, "log_offset_ahead"@, "future offset"@),
        AppendFault::Conflict => failure(409, "log_content_conflict"@, "bytes differ"@),
    }
}

/// Whether a piece of a log is taken at once.
pub open spec fn chunk_outcome(length: u64, r: Result<(), Failure>) -> bool {
    &&& r is Ok <==> length <= MAX_CHUNK
    &&& r is Err ==> r->Err_0@ == failure(413, "payload_too_large"@, "chunk too large"@)
}

/// Refuses a chunk that is too large.
pub fn check_chunk(length: u64) -> (r: Result<(), Failure>)
    ensures
        chunk_outcome(length, r),
{
    if length > MAX_CHUNK {
        Err(Failure::new(413, "payload_too_large", "chunk too large"))
    } else {
        Ok(())
    }
}

/// What is to be done with a chunk.
#[derive(Debug, PartialEq, Eq)]
pub enum AppendStart {
    /// Nothing: the log has expired, and holds so many bytes.
    Expired(u64),
    /// Append it to the log of this run.
    Append(String),
}

/// How appending to a log begins.
pub open spec fn append_start(
    store: Store,
    run_id: Seq<char>,
    attempt_no: u32,
    r: Result<AppendStart, Failure>,
) -> bool {
    &&& !is_run_id(run_id) ==> r is Err && r->Err_0@ == failure(400, "invalid_run_id"@, "invalid run id"@)
    &&& is_run_id(run_id) ==> match tables::log_index(store.logs@, canonical_run_id(run_id), attempt_no) {
        Some(i) => if store.logs@[i].metadata.expired_at_ms is Some {
            r == Ok::<AppendStart, Failure>(AppendStart::Expired(store.logs@[i].metadata.stored_bytes))
        } else {
            r is Ok && r->Ok_0 is Append && r->Ok_0->Append_0@ == canonical_run_id(run_id)
        },
        None => r is Ok && r->Ok_0 is Append && r->Ok_0->Append_0@ == canonical_run_id(run_id),
    }
}

/// Begins to append a chunk. The retransmission of a chunk of an expired log is acknowledged with
/// what the log held, and nothing is written.
pub fn begin_append(store: &Store, run_id: &str, attempt_no: u32) -> (r: Result<AppendStart, Failure>)
    ensures
        append_start(*store, run_id@, attempt_no, r),
{
    let id: String = match read_run_id(run_id) {
        Some(id) => id,
        None => {
            return Err(Failure::bad("invalid_run_id", "invalid run id"));
        },
    };
    if let Some(metadata) = store.log_metadata(id.as_str(), attempt_no) {
        if metadata.expired_at_ms.is_some() {
            return Ok(AppendStart::Expired(metadata.stored_bytes));
        }
    }
    Ok(AppendStart::Append(id))
}

/// How many bytes of a chunk a log of so many bytes already holds; a chunk that begins behind its end
/// is refused.
pub fn overlap(stored: u64, offset: u64, length: usize) -> (r: Result<usize, Failure>)
    ensures
        r is Ok <==> offset <= stored,
        r is Ok ==> r->Ok_0 == overlap_of(stored as nat, offset as nat, length as nat) && r->Ok_0 <= length,
        r is Err ==> r->Err_0@ == append_failure(AppendFault::Ahead),
{
    if offset > stored {
        return Err(Failure::conflict("log_offset_ahead", "future offset"));
    }
    let held: u64 = stored - offset;
    if held < length as u64 {
        Ok(held as usize)
    } else {
        Ok(length)
    }
}

/// Holds the bytes of a log against those of a chunk that overlap them. Where they are the same, the
/// rest of the chunk is what the log lacks.
pub fn tail_of<'a>(held: &[u8], body: &'a [u8]) -> (r: Result<&'a [u8], Failure>)
    requires
        held@.len() <= body@.len(),
    ensures
        r is Ok <==> held@ == body@.take(held@.len() as int),
        r is Ok ==> r->Ok_0@ == body@.skip(held@.len() as int),
        r is Err ==> r->Err_0@ == append_failure(AppendFault::Conflict),
{
    let mut i: usize = 0;
    while i < held.len()
        invariant
            i <= held.len(),
            held@.len() <= body@.len(),
            forall|k: int| 0 <= k < i ==> (#[trigger] held@[k]) == body@[k],
        decreases held.len() - i,
    {
        if held[i] != body[i] {
            assert(held@[i as int] != body@.take(held@.len() as int)[i as int]);
            return Err(Failure::conflict("log_content_conflict", "bytes differ"));
        }
        i = i + 1;
    }
    assert(held@ =~= body@.take(held@.len() as int));
    let tail: &'a [u8] = vstd::slice::slice_subrange(body, held.len(), body.len());
    assert(tail@ =~= body@.skip(held@.len() as int));
    Ok(tail)
}

/// A chunk is appended as the steps say: where the overlap is granted and its bytes agree, the log
/// becomes what it was with the rest of the chunk behind it.
pub proof fn law_steps_append(log: Seq<u8>, offset: nat, body: Seq<u8>)
    ensures
        appended(log, offset, body) is Ok <==> offset <= log.len() && log.subrange(
            offset as int,
            (offset + overlap_of(log.len(), offset, body.len())) as int,
        ) == body.take(overlap_of(log.len(), offset, body.len()) as int),
        appended(log, offset, body) is Ok ==> appended(log, offset, body)->Ok_0.len() == log.len() + body.len()
            - overlap_of(log.len(), offset, body.len()),
{
}

/// Sending a chunk twice is sending it once: the second time it is accepted and the log stays.
pub proof fn law_appending_is_idempotent(log: Seq<u8>, offset: nat, body: Seq<u8>)
    requires
        appended(log, offset, body) is Ok,
    ensures
        appended(appended(log, offset, body)->Ok_0, offset, body) == Ok::<Seq<u8>, AppendFault>(
            appended(log, offset, body)->Ok_0,
        ),
{
    let after = appended(log, offset, body)->Ok_0;
    let overlap = overlap_of(log.len(), offset, body.len());
    let again = overlap_of(after.len(), offset, body.len());
    assert(again == body.len());
    assert(after.subrange(offset as int, (offset + again) as int) =~= body.take(again as int)) by {
        assert forall|k: int| 0 <= k < body.len() implies after[offset + k] == body[k] by {
            if k < overlap {
                assert(log.subrange(offset as int, (offset + overlap) as int)[k] == body.take(overlap as int)[k]);
            } else {
                assert(after[offset + k] == body.skip(overlap as int)[k - overlap]);
            }
        }
    }
    assert(after + body.skip(again as int) =~= after);
}

/// A chunk never rewrites what a log holds: the log before is a prefix of the log after.
pub proof fn law_logs_only_grow(log: Seq<u8>, offset: nat, body: Seq<u8>)
    requires
        appended(log, offset, body) is Ok,
    ensures
        appended(log, offset, body)->Ok_0.len() >= log.len(),
        appended(log, offset, body)->Ok_0.take(log.len() as int) == log,
{
    assert(appended(log, offset, body)->Ok_0.take(log.len() as int) =~= log);
}

/// What is noted of a log that was appended to.
pub open spec fn append_noted(
    before: Store,
    after: Store,
    run_id: Seq<char>,
    attempt_no: u32,
    stored: u64,
    tail: usize,
    complete: bool,
    now: i64,
    r: Result<u64, Failure>,
) -> bool {
    &&& r is Ok <==> stored + tail <= wellformed::MAX_NUMBER
    &&& r is Err ==> after.logs == before.logs && r->Err_0@ == failure(
        500,
        "internal"@,
        "internal server error"@,
    )
    &&& r is Ok ==> r->Ok_0 == stored + tail && match tables::log_index(before.logs@, run_id, attempt_no) {
        Some(i) => after.logs@ == before.logs@.update(
            i,
            LogRow {
                metadata: LogMetadata {
                    stored_bytes: (stored + tail) as u64,
                    complete: before.logs@[i].metadata.complete || complete,
                    updated_at_ms: now,
                    ..before.logs@[i].metadata
                },
                ..before.logs@[i]
            },
        ),
        None => {
            &&& after.logs@.len() == before.logs@.len() + 1
            &&& after.logs@.drop_last() == before.logs@
            &&& after.logs@.last().run_id@ == run_id
            &&& after.logs@.last().attempt_no == attempt_no
            &&& after.logs@.last().metadata.relative_path@ == run_id + "/"@ + text::decimal(
                attempt_no as nat,
            ) + ".log"@
            &&& after.logs@.last().metadata.stored_bytes == stored + tail
            &&& after.logs@.last().metadata.complete == complete
            &&& after.logs@.last().metadata.updated_at_ms == now
            &&& after.logs@.last().metadata.expired_at_ms is None
        },
    }
}

/// Notes that a chunk was appended, and says where the next one begins.
pub fn finish_append(
    store: &mut Store,
    run_id: &str,
    attempt_no: u32,
    stored: u64,
    tail: usize,
    complete: bool,
    now: i64,
) -> (r: Result<u64, Failure>)
    requires
        old(store).wf(),
    ensures
        final(store).wf(),
        only_logs_change(*old(store), *final(store)),
        append_noted(*old(store), *final(store), run_id@, attempt_no, stored, tail, complete, now, r),
{
    let next: u64 = match stored.checked_add(tail as u64) {
        Some(next) => next,
        None => {
            return Err(Failure::new(500, "internal", "internal server error"));
        },
    };
    let relative: String = text::join4(run_id, "/", text::decimal_text(attempt_no as u64).as_str(), ".log");
    match store.update_log_metadata(run_id, attempt_no, relative.as_str(), next, complete, now) {
        Ok(()) => Ok(next),
        Err(error) => Err(Failure::of_store(error)),
    }
}

/// What of a log is asked for.
#[derive(Debug, PartialEq, Eq)]
pub struct LogQuery {
    pub attempt: Option<u32>,
    pub offset: u64,
    pub limit: Option<u64>,
    pub wait: Option<String>,
}

/// What of a log is to be read.
#[derive(Debug, PartialEq, Eq)]
pub struct LogRead {
    pub run_id: String,
    pub attempt_no: u32,
    pub offset: u64,
    pub limit: u64,
    pub wait: Span,
}

/// The greatest number of an attempt of a run among some.
pub open spec fn latest_attempt(rows: Seq<tables::AttemptRow>, run_id: Seq<char>) -> Option<u32>
    decreases rows.len(),
{
    if rows.len() == 0 {
        None
    } else {
        let before = latest_attempt(rows.drop_last(), run_id);
        let last = rows.last().record;
        if last.run_id@ == run_id && (before is None || before->0 < last.attempt_no) {
            Some(last.attempt_no)
        } else {
            before
        }
    }
}

/// The attempt whose log is asked for: the named one, else the latest.
pub open spec fn asked_attempt(store: Store, run_id: Seq<char>, query: LogQuery) -> Option<u32> {
    match query.attempt {
        Some(number) => Some(number),
        None => latest_attempt(store.attempts@, run_id),
    }
}

/// How many bytes are asked for.
pub open spec fn asked_limit(query: LogQuery) -> u64 {
    match query.limit {
        Some(limit) => limit,
        None => DEFAULT_CHUNK,
    }
}

/// How long a reader is ready to wait, held to the longest wait.
pub open spec fn asked_wait(query: LogQuery) -> Result<Span, Seq<char>> {
    match query.wait {
        None => Ok(Span { seconds: 0, nanos: 0 }),
        Some(value) => match settings::span_outcome(value@) {
            Err(message) => Err(message),
            Ok(span) => Ok(
                if span.seconds >= MAX_WAIT_SECONDS {
                    Span { seconds: MAX_WAIT_SECONDS, nanos: 0 }
                } else {
                    span
                },
            ),
        },
    }
}

/// How a request to read a log fails before anything is read.
pub open spec fn read_fault(store: Store, run_id: Seq<char>, query: LogQuery) -> Option<FailureView> {
    let canonical = canonical_run_id(run_id);
    if !is_run_id(run_id) {
        Some(failure(404, "run_not_found"@, "not found"@))
    } else if asked_attempt(store, canonical, query) is None || tables::attempt_index(
        store.attempts@,
        canonical,
        asked_attempt(store, canonical, query)->0,
    ) is None {
        Some(failure(404, "attempt_not_found"@, "not found"@))
    } else if asked_limit(query) == 0 || asked_limit(query) > MAX_CHUNK {
        Some(failure(400, "invalid_log_limit"@, "limit must be between 1 and 1048576"@))
    } else if asked_wait(query) is Err {
        Some(failure(400, "invalid_log_wait"@, "wait must be a duration"@))
    } else {
        None
    }
}

fn find_latest(store: &Store, run_id: &str) -> (r: Option<u32>)
    ensures
        r == latest_attempt(store.attempts@, run_id@),
{
    let mut best: Option<u32> = None;
    let mut i: usize = 0;
    while i < store.attempts.len()
        invariant
            i <= store.attempts.len(),
            best == latest_attempt(store.attempts@.take(i as int), run_id@),
        decreases store.attempts.len() - i,
    {
        assert(store.attempts@.take(i + 1).drop_last() == store.attempts@.take(i as int));
        let record: &AttemptRecord = &store.attempts[i].record;
        if text::same(record.run_id.as_str(), run_id) {
            let ahead: bool = match best {
                Some(number) => number < record.attempt_no,
                None => true,
            };
            if ahead {
                best = Some(record.attempt_no);
            }
        }
        i = i + 1;
    }
    assert(store.attempts@.take(store.attempts@.len() as int) == store.attempts@);
    best
}

/// How reading a log begins.
pub open spec fn read_begun(
    store: Store,
    run_id: Seq<char>,
    query: LogQuery,
    r: Result<LogRead, Failure>,
) -> bool {
    match r {
        Err(error) => read_fault(store, run_id, query) == Some(error@),
        Ok(read) => {
            &&& read_fault(store, run_id, query) is None
            &&& read.run_id@ == canonical_run_id(run_id)
            &&& Some(read.attempt_no) == asked_attempt(store, canonical_run_id(run_id), query)
            &&& read.offset == query.offset
            &&& read.limit == asked_limit(query)
            &&& 0 < read.limit <= MAX_CHUNK
            &&& asked_wait(query) == Ok::<Span, Seq<char>>(read.wait)
        },
    }
}

/// Begins to read a log.
pub fn begin_read(store: &Store, run_id: &str, query: &LogQuery) -> (r: Result<LogRead, Failure>)
    ensures
        read_begun(*store, run_id@, *query, r),
{
    let id: String = match read_run_id(run_id) {
        Some(id) => id,
        None => {
            return Err(Failure::not_found("run_not_found"));
        },
    };
    let attempt_no: u32 = match query.attempt {
        Some(number) => number,
        None => match find_latest(store, id.as_str()) {
            Some(number) => number,
            None => {
                return Err(Failure::not_found("attempt_not_found"));
            },
        },
    };
    if tables::find_attempt(&store.attempts, id.as_str(), attempt_no).is_none() {
        return Err(Failure::not_found("attempt_not_found"));
    }
    let limit: u64 = match query.limit {
        Some(limit) => limit,
        None => DEFAULT_CHUNK,
    };
    if limit == 0 || limit > MAX_CHUNK {
        return Err(Failure::bad("invalid_log_limit", "limit must be between 1 and 1048576"));
    }
    let wait: Span = match &query.wait {
        None => Span { seconds: 0, nanos: 0 },
        Some(value) => match settings::parse_span(value.as_str()) {
            Err(_) => {
                return Err(Failure::bad("invalid_log_wait", "wait must be a duration"));
            },
            Ok(span) => if span.seconds >= MAX_WAIT_SECONDS {
                Span { seconds: MAX_WAIT_SECONDS, nanos: 0 }
            } else {
                span
            },
        },
    };
    Ok(LogRead { run_id: id, attempt_no, offset: query.offset, limit, wait })
}

/// Whether a reader waits for more to come.
pub open spec fn waits_for_more(store: Store, read: LogRead) -> bool {
    ((read.wait.seconds > 0 || read.wait.nanos > 0) && match tables::log_index(
        store.logs@,
        read.run_id@,
        read.attempt_no,
    ) {
        None => true,
        Some(i) => {
            let metadata = store.logs@[i].metadata;
            metadata.expired_at_ms is None && !metadata.complete && read.offset >= metadata.stored_bytes
        },
    })
}

/// True when a reader has to wait: it is ready to, and the log, where there is one, may still grow
/// and holds nothing behind the offset.
pub fn must_wait(store: &Store, read: &LogRead) -> (r: bool)
    ensures
        r == waits_for_more(*store, *read),
{
    if read.wait.seconds == 0 && read.wait.nanos == 0 {
        return false;
    }
    match store.log_metadata(read.run_id.as_str(), read.attempt_no) {
        None => true,
        Some(metadata) => metadata.expired_at_ms.is_none() && !metadata.complete && read.offset
            >= metadata.stored_bytes,
    }
}

/// What there is of a log for a reader.
#[derive(Clone, Copy, Debug, PartialEq, Eq, Structural)]
pub enum LogPart {
    /// No log yet.
    Nothing,
    /// So many bytes from the offset on, of a log that holds so many and may be complete.
    Bytes { take: u64, stored_bytes: u64, complete: bool },
}

/// What there is of a log from an offset on, held to a limit.
pub open spec fn part_of(metadata: LogMetadata, offset: u64, limit: u64) -> LogPart {
    LogPart::Bytes {
        take: if offset >= metadata.stored_bytes {
            0
        } else if metadata.stored_bytes - offset < limit {
            (metadata.stored_bytes - offset) as u64
        } else {
            limit
        },
        stored_bytes: metadata.stored_bytes,
        complete: metadata.complete,
    }
}

/// Where the next part of a log begins, and whether the log ends there: it is complete and nothing is
/// left to read.
pub open spec fn read_on(offset: u64, part: LogPart) -> (int, bool) {
    match part {
        LogPart::Nothing => (offset as int, false),
        LogPart::Bytes { take, stored_bytes, complete } => (
            offset + take,
            complete && offset + take >= stored_bytes,
        ),
    }
}

/// Reading part after part reaches the end of a log and stops there: every part that is not the last
/// leads on, none leads past what the log holds, and the reader is told of the end exactly where a
/// complete log ends.
pub proof fn law_readers_reach_the_end(metadata: LogMetadata, offset: u64, limit: u64)
    requires
        offset <= metadata.stored_bytes,
        limit > 0,
    ensures
        ({
            let (next, ended) = read_on(offset, part_of(metadata, offset, limit));
            &&& offset <= next <= metadata.stored_bytes
            &&& offset < metadata.stored_bytes ==> offset < next
            &&& ended <==> metadata.complete && next == metadata.stored_bytes
        }),
{
}

/// What of a log there is to read.
pub open spec fn located(store: Store, read: LogRead, r: Result<LogPart, Failure>) -> bool {
    match tables::log_index(store.logs@, read.run_id@, read.attempt_no) {
        None => r == Ok::<LogPart, Failure>(LogPart::Nothing),
        Some(i) => {
            let metadata = store.logs@[i].metadata;
            if metadata.expired_at_ms is Some {
                r is Err && r->Err_0@ == failure(410, "log_expired"@, "Run log expired by retention policy"@)
            } else {
                r == Ok::<LogPart, Failure>(part_of(metadata, read.offset, read.limit))
            }
        },
    }
}

/// Finds what there is of a log for a reader; an expired log is gone.
pub fn locate(store: &Store, read: &LogRead) -> (r: Result<LogPart, Failure>)
    ensures
        located(*store, *read, r),
{
    match store.log_metadata(read.run_id.as_str(), read.attempt_no) {
        None => Ok(LogPart::Nothing),
        Some(metadata) => {
            if metadata.expired_at_ms.is_some() {
                return Err(Failure::gone("log_expired", "Run log expired by retention policy"));
            }
            let take: u64 = if read.offset >= metadata.stored_bytes {
                0
            } else if metadata.stored_bytes - read.offset < read.limit {
                metadata.stored_bytes - read.offset
            } else {
                read.limit
            };
            Ok(LogPart::Bytes { take, stored_bytes: metadata.stored_bytes, complete: metadata.complete })
        },
    }
}

/// How reading a log fails whose file cannot be opened.
pub fn unreadable(missing: bool, message: &str) -> (r: Failure)
    ensures
        r@ == (if missing {
            failure(500, "log_missing"@, "Run log file is missing"@)
        } else {
            failure(500, "log_io_error"@, message@)
        }),
{
    if missing {
        Failure::new(500, "log_missing", "Run log file is missing")
    } else {
        Failure::io(message)
    }
}

/// Where the next part of a log begins, and whether the log ends there: it is complete and nothing is
/// left to read.
pub fn finish_read(offset: u64, part: LogPart) -> (r: (u64, bool))
    requires
        part is Bytes && part->take > 0 ==> offset + part->take <= part->stored_bytes,
    ensures
        r.0 == read_on(offset, part).0,
        r.1 == read_on(offset, part).1,
{
    match part {
        LogPart::Nothing => (offset, false),
        LogPart::Bytes { take, stored_bytes, complete } => {
            let next: u64 = if take > 0 {
                offset + take
            } else {
                offset
            };
            (next, complete && next >= stored_bytes)
        },
    }
}

/// What is appended stands where it was sent to: a piece is taken where it begins within what is stored
/// and agrees with every byte of it that it covers, and then the log is what was stored with the piece
/// laid over it. It is refused as ahead where it begins behind the end, and else as differing.
pub proof fn law_pieces_stand_where_they_were_sent(log: Seq<u8>, offset: nat, body: Seq<u8>)
    ensures
        ({
            let agrees = forall|k: int|
                0 <= k < body.len() && offset + k < log.len() ==> log[offset + k] == #[trigger] body[k];
            &&& offset > log.len() ==> appended(log, offset, body) == Err::<Seq<u8>, AppendFault>(AppendFault::Ahead)
            &&& offset <= log.len() && !agrees ==> appended(log, offset, body) == Err::<Seq<u8>, AppendFault>(
                AppendFault::Conflict,
            )
            &&& offset <= log.len() && agrees ==> {
                let next = appended(log, offset, body)->Ok_0;
                &&& appended(log, offset, body) is Ok
                &&& next.len() == if offset + body.len() > log.len() {
                    offset + body.len()
                } else {
                    log.len()
                }
                &&& forall|k: int| 0 <= k < log.len() ==> #[trigger] next[k] == log[k]
                &&& forall|k: int| 0 <= k < body.len() ==> next[offset + k] == #[trigger] body[k]
            }
        }),
{
    let overlap = overlap_of(log.len(), offset, body.len()) as int;
    if offset <= log.len() {
        let held = log.subrange(offset as int, offset + overlap);
        let sent = body.take(overlap);
        let agrees = forall|k: int|
            0 <= k < body.len() && offset + k < log.len() ==> log[offset + k] == #[trigger] body[k];
        if agrees {
            assert forall|k: int| 0 <= k < overlap implies held[k] == sent[k] by {
                assert(log[offset + k] == body[k]);
            }
            assert(held =~= sent);
            let next = appended(log, offset, body)->Ok_0;
            assert forall|k: int| 0 <= k < body.len() implies next[offset + k] == #[trigger] body[k] by {
                if offset + k < log.len() {
                    assert(log[offset + k] == body[k]);
                } else {
                    assert(next[offset + k] == body.skip(overlap)[offset + k - log.len()]);
                }
            }
        } else if held == sent {
            assert forall|k: int| 0 <= k < body.len() && offset + k < log.len() implies log[offset + k]
                == #[trigger] body[k] by {
                assert(held[k] == sent[k]);
            }
        }
    }
}

/// A piece of up to a mebibyte is taken at once, and a longer one is not.
pub proof fn law_pieces_are_held_to_a_mebibyte(length: u64, r: Result<(), Failure>)
    requires
        chunk_outcome(length, r),
    ensures
        r is Ok <==> length <= 1024 * 1024,
        r is Err ==> r->Err_0@.status == 413,
{
}

/// A log that was let go takes nothing more and tells how much it held; any other one is appended to,
/// under the one way of writing its run.
pub proof fn law_logs_that_were_let_go_take_nothing(
    store: Store,
    run_id: Seq<char>,
    attempt_no: u32,
    r: Result<AppendStart, Failure>,
    l: int,
)
    requires
        store.wf(),
        append_start(store, run_id, attempt_no, r),
        0 <= l < store.logs@.len(),
        store.logs@[l].run_id@ == canonical_run_id(run_id),
        store.logs@[l].attempt_no == attempt_no,
    ensures
        is_run_id(run_id) && store.logs@[l].metadata.expired_at_ms is Some ==> r == Ok::<AppendStart, Failure>(
            AppendStart::Expired(store.logs@[l].metadata.stored_bytes),
        ),
        is_run_id(run_id) && store.logs@[l].metadata.expired_at_ms is None ==> r is Ok && r->Ok_0 is Append
            && r->Ok_0->Append_0@ == store.logs@[l].run_id@,
        !is_run_id(run_id) ==> r is Err && r->Err_0@.status == 400,
{
    crate::store::lookup::lemma_own_log(store.logs@, l);
}

/// After appending a log is noted with all that is stored then; once complete it stays so, and nothing
/// else of it and of the other logs changes.
pub proof fn law_appending_is_noted(
    before: Store,
    after: Store,
    run_id: Seq<char>,
    attempt_no: u32,
    stored: u64,
    tail: usize,
    complete: bool,
    now: i64,
    r: Result<u64, Failure>,
)
    requires
        before.wf(),
        append_noted(before, after, run_id, attempt_no, stored, tail, complete, now, r),
    ensures
        r is Ok <==> stored + tail <= i64::MAX,
        r is Ok ==> r->Ok_0 == stored + tail,
        r is Err ==> after.logs@ == before.logs@ && r->Err_0@.status == 500,
        r is Ok ==> exists|l: int|
            0 <= l < after.logs@.len() && (#[trigger] after.logs@[l]).run_id@ == run_id && after.logs@[l].attempt_no
                == attempt_no && after.logs@[l].metadata.stored_bytes == stored + tail
                && after.logs@[l].metadata.updated_at_ms == now && (complete ==> after.logs@[l].metadata.complete),
        r is Ok ==> forall|l: int|
            0 <= l < before.logs@.len() ==> if before.logs@[l].run_id@ == run_id && before.logs@[l].attempt_no == attempt_no {
                &&& (#[trigger] after.logs@[l]).metadata.stored_bytes == stored + tail
                &&& after.logs@[l].metadata.complete == (before.logs@[l].metadata.complete || complete)
                &&& after.logs@[l].metadata.updated_at_ms == now
                &&& after.logs@[l].metadata.relative_path == before.logs@[l].metadata.relative_path
                &&& after.logs@[l].metadata.expired_at_ms == before.logs@[l].metadata.expired_at_ms
            } else {
                after.logs@[l] == before.logs@[l]
            },
{
    tables::lemma_log_index(before.logs@, run_id, attempt_no);
    let place = tables::log_index(before.logs@, run_id, attempt_no);
    if r is Ok {
        let l = match place {
            Some(i) => i,
            None => before.logs@.len() as int,
        };
        assert(after.logs@[l].run_id@ == run_id);
        assert forall|l: int| 0 <= l < before.logs@.len() implies if before.logs@[l].run_id@ == run_id
            && before.logs@[l].attempt_no == attempt_no {
            &&& (#[trigger] after.logs@[l]).metadata.stored_bytes == stored + tail
            &&& after.logs@[l].metadata.complete == (before.logs@[l].metadata.complete || complete)
            &&& after.logs@[l].metadata.updated_at_ms == now
            &&& after.logs@[l].metadata.relative_path == before.logs@[l].metadata.relative_path
            &&& after.logs@[l].metadata.expired_at_ms == before.logs@[l].metadata.expired_at_ms
        } else {
            after.logs@[l] == before.logs@[l]
        } by {
            if before.logs@[l].run_id@ == run_id && before.logs@[l].attempt_no == attempt_no {
                crate::store::lookup::lemma_own_log(before.logs@, l);
            } else if place is None {
                assert(after.logs@.drop_last()[l] == after.logs@[l]);
            }
        }
    }
}

/// The latest attempt of a run is the one with the greatest number, and there is one where the run has
/// any.
pub proof fn law_latest_attempt_is_the_latest(rows: Seq<tables::AttemptRow>, run_id: Seq<char>)
    ensures
        match latest_attempt(rows, run_id) {
            None => forall|a: int| 0 <= a < rows.len() ==> (#[trigger] rows[a]).record.run_id@ != run_id,
            Some(number) => (exists|a: int|
                0 <= a < rows.len() && (#[trigger] rows[a]).record.run_id@ == run_id && rows[a].record.attempt_no == number)
                && forall|a: int|
                0 <= a < rows.len() && (#[trigger] rows[a]).record.run_id@ == run_id ==> rows[a].record.attempt_no <= number,
        },
    decreases rows.len(),
{
    if rows.len() > 0 {
        let rest = rows.drop_last();
        law_latest_attempt_is_the_latest(rest, run_id);
        assert forall|a: int| 0 <= a < rows.len() - 1 implies #[trigger] rows[a] == rest[a] by {}
        let before = latest_attempt(rest, run_id);
        if before is Some {
            let a = choose|a: int|
                0 <= a < rest.len() && (#[trigger] rest[a]).record.run_id@ == run_id && rest[a].record.attempt_no == before->0;
            assert(rows[a].record.attempt_no == before->0);
        }
        assert(rows[rows.len() - 1] == rows.last());
    }
}

/// A log is read as it was asked for: from the offset, the attempt that was named or else the latest one,
/// as much as was asked for but a mebibyte at most, and waiting for twenty seconds at most.
pub proof fn law_logs_are_read_as_asked(store: Store, run_id: Seq<char>, query: LogQuery, r: Result<LogRead, Failure>)
    requires
        read_begun(store, run_id, query, r),
    ensures
        r is Ok ==> {
            let read = r->Ok_0;
            &&& read.offset == query.offset
            &&& query.attempt is Some ==> read.attempt_no == query.attempt->0
            &&& query.attempt is None ==> forall|a: int|
                0 <= a < store.attempts@.len() && (#[trigger] store.attempts@[a]).record.run_id@ == read.run_id@
                    ==> store.attempts@[a].record.attempt_no <= read.attempt_no
            &&& exists|a: int|
                0 <= a < store.attempts@.len() && (#[trigger] store.attempts@[a]).record.run_id@ == read.run_id@
                    && store.attempts@[a].record.attempt_no == read.attempt_no
            &&& query.limit is Some ==> read.limit == query.limit->0
            &&& query.limit is None ==> read.limit == 64 * 1024
            &&& 1 <= read.limit <= 1024 * 1024
            &&& query.wait is None ==> read.wait.seconds == 0 && read.wait.nanos == 0
            &&& read.wait.seconds <= 20 && (read.wait.seconds == 20 ==> read.wait.nanos == 0)
            &&& query.wait is Some && settings::span_outcome(query.wait->0@) is Ok && settings::span_outcome(
                query.wait->0@,
            )->Ok_0.seconds < 20 ==> settings::span_outcome(query.wait->0@) == Ok::<Span, Seq<char>>(read.wait)
        },
        r is Err ==> r->Err_0@.status == 404 || r->Err_0@.status == 400,
        r is Err && r->Err_0@.status == 400 ==> (query.limit is Some && (query.limit->0 == 0 || query.limit->0 > 1024 * 1024)) || (
        query.wait is Some && settings::span_outcome(query.wait->0@) is Err),
        is_run_id(run_id) && r is Err && r->Err_0@.status == 404 ==> forall|a: int|
            0 <= a < store.attempts@.len() && (#[trigger] store.attempts@[a]).record.run_id@ == canonical_run_id(run_id)
                ==> query.attempt is Some && store.attempts@[a].record.attempt_no != query.attempt->0,
{
    let canonical = canonical_run_id(run_id);
    law_latest_attempt_is_the_latest(store.attempts@, canonical);
    let asked = asked_attempt(store, canonical, query);
    if asked is Some {
        tables::lemma_attempt_index(store.attempts@, canonical, asked->0);
    }
}

/// A reader that may wait does so where there is nothing behind its offset yet and more can come: not
/// of a log that is complete or was let go.
pub proof fn law_readers_wait_for_what_can_come(store: Store, read: LogRead, l: int)
    requires
        store.wf(),
        0 <= l < store.logs@.len(),
        store.logs@[l].run_id@ == read.run_id@,
        store.logs@[l].attempt_no == read.attempt_no,
    ensures
        waits_for_more(store, read) <==> (read.wait.seconds > 0 || read.wait.nanos > 0) && store.logs@[l].metadata.stored_bytes
            <= read.offset && !store.logs@[l].metadata.complete && store.logs@[l].metadata.expired_at_ms is None,
{
    crate::store::lookup::lemma_own_log(store.logs@, l);
}

/// A reader is given what is stored behind its offset, as much of it as it asked for; a log that was let go
/// is gone. It has come to the end exactly where the log is complete and nothing is left behind.
pub proof fn law_readers_are_given_what_is_stored(store: Store, read: LogRead, r: Result<LogPart, Failure>, l: int)
    requires
        store.wf(),
        located(store, read, r),
        0 <= l < store.logs@.len(),
        store.logs@[l].run_id@ == read.run_id@,
        store.logs@[l].attempt_no == read.attempt_no,
    ensures
        r is Ok <==> store.logs@[l].metadata.expired_at_ms is None,
        r is Err ==> r->Err_0@.status == 410,
        r is Ok ==> {
            let part = r->Ok_0;
            let held = store.logs@[l].metadata;
            &&& part is Bytes
            &&& part->stored_bytes == held.stored_bytes
            &&& part->complete == held.complete
            &&& part->take <= read.limit
            &&& read.offset >= held.stored_bytes ==> part->take == 0
            &&& read.offset < held.stored_bytes ==> read.offset + part->take <= held.stored_bytes
            &&& read.offset < held.stored_bytes ==> part->take == read.limit || read.offset + part->take == held.stored_bytes
            &&& read_on(read.offset, part).0 == read.offset + part->take
            &&& read_on(read.offset, part).1 <==> held.complete && read.offset + part->take >= held.stored_bytes
        },
{
    crate::store::lookup::lemma_own_log(store.logs@, l);
}

/// Of a log that is not there yet there is nothing to read, it has not ended, and a reader that may wait
/// waits for it.
pub proof fn law_logs_that_are_not_there_may_come(store: Store, read: LogRead, r: Result<LogPart, Failure>)
    requires
        located(store, read, r),
        forall|l: int|
            0 <= l < store.logs@.len() ==> (#[trigger] store.logs@[l]).run_id@ != read.run_id@ || store.logs@[l].attempt_no
                != read.attempt_no,
    ensures
        r == Ok::<LogPart, Failure>(LogPart::Nothing),
        read_on(read.offset, LogPart::Nothing) == (read.offset as int, false),
        waits_for_more(store, read) <==> read.wait.seconds > 0 || read.wait.nanos > 0,
{
    tables::lemma_log_index(store.logs@, read.run_id@, read.attempt_no);
}

} // verus!
