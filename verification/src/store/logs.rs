//! What is known of the logs of attempts, and when they expire.
use super::credentials;
use super::ranked;
use super::ranked::in_rank;
use super::ranked::Ranked;
use super::tables;
use super::tables::AttemptRow;
use super::tables::LogMetadata;
use super::tables::LogRow;
use super::tables::Store;
use super::tables::StoreError;
use super::wellformed;
use crate::domain::state::AttemptState;
use crate::text;
use vstd::prelude::*;

verus! {

/// The log of an attempt, as retention looks at it.
#[derive(Debug, PartialEq, Eq)]
pub struct LogRetentionEntry {
    pub run_id: String,
    pub attempt_no: u32,
    pub stored_bytes: u64,
    pub updated_at_ms: i64,
    pub eligible: bool,
    pub expired_at_ms: Option<i64>,
}

impl Clone for LogRetentionEntry {
    fn clone(&self) -> (r: Self)
        ensures
            r == *self,
    {
        LogRetentionEntry {
            run_id: self.run_id.clone(),
            attempt_no: self.attempt_no,
            stored_bytes: self.stored_bytes,
            updated_at_ms: self.updated_at_ms,
            eligible: self.eligible,
            expired_at_ms: self.expired_at_ms,
        }
    }
}

/// Logs that were touched earlier come first; then by run and by attempt.
pub open spec fn touched_before(a: LogRetentionEntry, b: LogRetentionEntry) -> bool {
    ||| a.updated_at_ms < b.updated_at_ms
    ||| a.updated_at_ms == b.updated_at_ms && text::lex_less(a.run_id@, b.run_id@)
    ||| a.updated_at_ms == b.updated_at_ms && a.run_id@ == b.run_id@ && a.attempt_no < b.attempt_no
}

impl Ranked for LogRetentionEntry {
    open spec fn precedes(&self, other: &Self) -> bool {
        touched_before(*self, *other)
    }

    fn is_before(&self, other: &Self) -> (r: bool) {
        if self.updated_at_ms != other.updated_at_ms {
            self.updated_at_ms < other.updated_at_ms
        } else if text::same(self.run_id.as_str(), other.run_id.as_str()) {
            proof {
                text::lemma_lex_less_total(self.run_id@, other.run_id@);
            }
            self.attempt_no < other.attempt_no
        } else {
            text::less(self.run_id.as_str(), other.run_id.as_str())
        }
    }

    proof fn lemma_order(a: &Self, b: &Self, c: &Self) {
        text::lemma_lex_less_total(a.run_id@, b.run_id@);
        text::lemma_lex_less_total(b.run_id@, c.run_id@);
        text::lemma_lex_less_total(a.run_id@, c.run_id@);
        if text::lex_less(a.run_id@, b.run_id@) && text::lex_less(b.run_id@, c.run_id@) {
            text::lemma_lex_less_transitive(a.run_id@, b.run_id@, c.run_id@);
        }
    }
}

/// True when the attempt of a log has ended.
pub open spec fn attempt_ended(attempts: Seq<AttemptRow>, run_id: Seq<char>, attempt_no: u32) -> bool {
    match tables::attempt_index(attempts, run_id, attempt_no) {
        Some(i) => attempts[i].record.state.terminal(),
        None => false,
    }
}

/// True when a log may expire: it is complete and its attempt has ended.
pub open spec fn may_expire(attempts: Seq<AttemptRow>, log: LogRow) -> bool {
    log.metadata.complete && attempt_ended(attempts, log.run_id@, log.attempt_no)
}

/// The log as retention looks at it.
pub open spec fn retention_entry(attempts: Seq<AttemptRow>, log: LogRow) -> LogRetentionEntry {
    LogRetentionEntry {
        run_id: log.run_id,
        attempt_no: log.attempt_no,
        stored_bytes: log.metadata.stored_bytes,
        updated_at_ms: log.metadata.updated_at_ms,
        eligible: may_expire(attempts, log),
        expired_at_ms: log.metadata.expired_at_ms,
    }
}

/// The logs of known attempts as retention looks at them, in the order of the table.
pub open spec fn entries_of(logs: Seq<LogRow>, attempts: Seq<AttemptRow>) -> Seq<LogRetentionEntry>
    decreases logs.len(),
{
    if logs.len() == 0 {
        Seq::empty()
    } else if tables::attempt_index(attempts, logs.last().run_id@, logs.last().attempt_no) is Some {
        entries_of(logs.drop_last(), attempts).push(retention_entry(attempts, logs.last()))
    } else {
        entries_of(logs.drop_last(), attempts)
    }
}

/// True when nothing but the logs differs.
pub open spec fn only_logs_change(before: Store, after: Store) -> bool {
    &&& credentials::only_access_changes(Store { logs: after.logs, ..before }, after)
    &&& after.nodes == before.nodes
    &&& after.credentials == before.credentials
}

/// What letting a log go comes to.
pub open spec fn expiry_outcome(
    before: Store,
    after: Store,
    run_id: Seq<char>,
    attempt_no: u32,
    now: i64,
    r: bool,
) -> bool {
    &&& r == (match tables::log_index(before.logs@, run_id, attempt_no) {
        Some(i) => may_expire(before.attempts@, before.logs@[i])
            && before.logs@[i].metadata.expired_at_ms is None,
        None => false,
    })
    &&& !r ==> after.logs == before.logs
    &&& r ==> {
        let i = tables::log_index(before.logs@, run_id, attempt_no)->0;
        after.logs@ == before.logs@.update(
            i,
            LogRow {
                metadata: LogMetadata { expired_at_ms: Some(now), ..before.logs@[i].metadata },
                ..before.logs@[i]
            },
        )
    }
}

/// What noting how much of a log is stored comes to.
pub open spec fn log_outcome(
    before: Store,
    after: Store,
    run_id: Seq<char>,
    attempt_no: u32,
    relative_path: Seq<char>,
    stored_bytes: u64,
    complete: bool,
    now: i64,
    r: Result<(), StoreError>,
) -> bool {
    &&& r is Ok <==> stored_bytes <= wellformed::MAX_NUMBER
    &&& r is Err ==> r->Err_0 is Database && after.logs == before.logs
    &&& r is Ok ==> match tables::log_index(before.logs@, run_id, attempt_no) {
        Some(i) => after.logs@ == before.logs@.update(
            i,
            LogRow {
                metadata: LogMetadata {
                    stored_bytes,
                    complete: before.logs@[i].metadata.complete || complete,
                    updated_at_ms: now,
                    ..before.logs@[i].metadata
                },
                ..before.logs@[i]
            },
        ),
        None => {
            &&& after.logs@.len() == before.logs@.len() + 1
            &&& after.logs@.drop_last() == before.logs@
            &&& after.logs@.last().run_id@ == run_id
            &&& after.logs@.last().attempt_no == attempt_no
            &&& after.logs@.last().metadata.relative_path@ == relative_path
            &&& after.logs@.last().metadata.stored_bytes == stored_bytes
            &&& after.logs@.last().metadata.complete == complete
            &&& after.logs@.last().metadata.updated_at_ms == now
            &&& after.logs@.last().metadata.expired_at_ms is None
        },
    }
}

impl Store {
    /// What is known of the log of an attempt.
    pub fn log_metadata(&self, run_id: &str, attempt_no: u32) -> (r: Option<LogMetadata>)
        ensures
            r == (match tables::log_index(self.logs@, run_id@, attempt_no) {
                Some(i) => Some(self.logs@[i].metadata),
                None => None,
            }),
    {
        match tables::find_log(&self.logs, run_id, attempt_no) {
            Some(i) => Some(self.logs[i].metadata.clone()),
            None => None,
        }
    }

    /// The logs as retention looks at them, those first that were touched earlier.
    pub fn log_retention_entries(&self) -> (r: Vec<LogRetentionEntry>)
        ensures
            in_rank(r@),
            r@.to_multiset() == entries_of(self.logs@, self.attempts@).to_multiset(),
    {
        let mut out: Vec<LogRetentionEntry> = Vec::new();
        let mut i: usize = 0;
        while i < self.logs.len()
            invariant
                i <= self.logs.len(),
                out@ == entries_of(self.logs@.take(i as int), self.attempts@),
            decreases self.logs.len() - i,
        {
            assert(self.logs@.take(i + 1).drop_last() == self.logs@.take(i as int));
            let log: &LogRow = &self.logs[i];
            if let Some(a) = tables::find_attempt(&self.attempts, log.run_id.as_str(), log.attempt_no) {
                out.push(
                    LogRetentionEntry {
                        run_id: log.run_id.clone(),
                        attempt_no: log.attempt_no,
                        stored_bytes: log.metadata.stored_bytes,
                        updated_at_ms: log.metadata.updated_at_ms,
                        eligible: log.metadata.complete && self.attempts[a].record.state.is_terminal(),
                        expired_at_ms: log.metadata.expired_at_ms,
                    },
                );
            }
            i = i + 1;
        }
        assert(self.logs@.take(self.logs@.len() as int) == self.logs@);
        ranked::ranked(out)
    }

    /// Notes that a log has expired, where it may and has not yet. True when it was noted.
    pub fn mark_log_expired(&mut self, run_id: &str, attempt_no: u32, now: i64) -> (r: bool)
        requires
            old(self).wf(),
        ensures
            final(self).wf(),
            only_logs_change(*old(self), *final(self)),
            expiry_outcome(*old(self), *final(self), run_id@, attempt_no, now, r),
    {
        proof {
            tables::lemma_log_index(self.logs@, run_id@, attempt_no);
        }
        match tables::find_log(&self.logs, run_id, attempt_no) {
            None => false,
            Some(i) => {
                if !self.logs[i].metadata.complete || self.logs[i].metadata.expired_at_ms.is_some() {
                    return false;
                }
                match tables::find_attempt(&self.attempts, run_id, attempt_no) {
                    None => false,
                    Some(a) => {
                        if !self.attempts[a].record.state.is_terminal() {
                            return false;
                        }
                        let row: &mut LogRow = &mut self.logs[i];
                        row.metadata.expired_at_ms = Some(now);
                        true
                    },
                }
            },
        }
    }

    /// Notes how much of a log is kept. A log that was complete stays complete, and keeps the place
    /// that was first given. More bytes than the tables can count are refused.
    pub fn update_log_metadata(
        &mut self,
        run_id: &str,
        attempt_no: u32,
        relative_path: &str,
        stored_bytes: u64,
        complete: bool,
        now: i64,
    ) -> (r: Result<(), StoreError>)
        requires
            old(self).wf(),
        ensures
            final(self).wf(),
            only_logs_change(*old(self), *final(self)),
            log_outcome(*old(self), *final(self), run_id@, attempt_no, relative_path@, stored_bytes, complete, now, r),
    {
        proof {
            tables::lemma_log_index(self.logs@, run_id@, attempt_no);
        }
        if stored_bytes > wellformed::MAX_NUMBER {
            return Err(StoreError::Database("integer out of range".to_owned()));
        }
        match tables::find_log(&self.logs, run_id, attempt_no) {
            Some(i) => {
                let row: &mut LogRow = &mut self.logs[i];
                row.metadata.stored_bytes = stored_bytes;
                row.metadata.complete = row.metadata.complete || complete;
                row.metadata.updated_at_ms = now;
                Ok(())
            },
            None => {
                let ghost before = self.logs@;
                self.logs.push(
                    LogRow {
                        run_id: run_id.to_owned(),
                        attempt_no,
                        metadata: LogMetadata {
                            relative_path: relative_path.to_owned(),
                            stored_bytes,
                            complete,
                            updated_at_ms: now,
                            expired_at_ms: None,
                        },
                    },
                );
                assert(self.logs@.drop_last() == before);
                Ok(())
            },
        }
    }
}

/// The log of an attempt that is still under way never expires.
pub proof fn law_live_logs_stay(attempts: Seq<AttemptRow>, log: LogRow, i: int)
    requires
        tables::attempt_index(attempts, log.run_id@, log.attempt_no) == Some(i),
        !attempts[i].record.state.terminal(),
    ensures
        !may_expire(attempts, log),
        !retention_entry(attempts, log).eligible,
{
}

/// A log is let go where it is complete, its attempt has ended and it was not let go before; nothing
/// but that moment changes, and no other log.
pub proof fn law_logs_are_let_go_once(before: Store, after: Store, now: i64, gone: bool, l: int, a: int)
    requires
        before.wf(),
        0 <= l < before.logs@.len(),
        expiry_outcome(before, after, before.logs@[l].run_id@, before.logs@[l].attempt_no, now, gone),
        0 <= a < before.attempts@.len(),
        before.attempts@[a].record.run_id@ == before.logs@[l].run_id@,
        before.attempts@[a].record.attempt_no == before.logs@[l].attempt_no,
    ensures
        ({
            let ended = before.attempts@[a].record.state;
            gone <==> before.logs@[l].metadata.complete && before.logs@[l].metadata.expired_at_ms is None && ended
                != AttemptState::Queued && ended != AttemptState::Accepted && ended != AttemptState::Running
        }),
        !gone ==> after.logs@ == before.logs@,
        gone ==> {
            &&& after.logs@[l].metadata.expired_at_ms == Some(now)
            &&& after.logs@[l].metadata.stored_bytes == before.logs@[l].metadata.stored_bytes
            &&& after.logs@[l].metadata.complete
            &&& after.logs@[l].metadata.relative_path == before.logs@[l].metadata.relative_path
            &&& after.logs@[l].metadata.updated_at_ms == before.logs@[l].metadata.updated_at_ms
            &&& after.logs@[l].run_id == before.logs@[l].run_id
            &&& after.logs@[l].attempt_no == before.logs@[l].attempt_no
            &&& after.logs@.len() == before.logs@.len()
            &&& forall|o: int| 0 <= o < before.logs@.len() && o != l ==> #[trigger] after.logs@[o] == before.logs@[o]
        },
{
    super::lookup::lemma_own_log(before.logs@, l);
    super::lookup::lemma_own_attempt(before.attempts@, a);
}

/// What is noted of a log is how much of it is stored and when; a log that was complete once stays so,
/// its place and the moment it was let go stay, and so do the other logs.
pub proof fn law_logs_are_noted_as_stored(
    before: Store,
    after: Store,
    run_id: Seq<char>,
    attempt_no: u32,
    relative_path: Seq<char>,
    stored_bytes: u64,
    complete: bool,
    now: i64,
    r: Result<(), StoreError>,
)
    requires
        before.wf(),
        log_outcome(before, after, run_id, attempt_no, relative_path, stored_bytes, complete, now, r),
    ensures
        r is Ok <==> stored_bytes <= i64::MAX,
        r is Err ==> after.logs@ == before.logs@,
        r is Ok ==> forall|l: int|
            0 <= l < before.logs@.len() ==> if before.logs@[l].run_id@ == run_id && before.logs@[l].attempt_no == attempt_no {
                &&& after.logs@.len() == before.logs@.len()
                &&& (#[trigger] after.logs@[l]).metadata.stored_bytes == stored_bytes
                &&& after.logs@[l].metadata.complete == (before.logs@[l].metadata.complete || complete)
                &&& after.logs@[l].metadata.updated_at_ms == now
                &&& after.logs@[l].metadata.relative_path == before.logs@[l].metadata.relative_path
                &&& after.logs@[l].metadata.expired_at_ms == before.logs@[l].metadata.expired_at_ms
                &&& after.logs@[l].run_id == before.logs@[l].run_id
                &&& after.logs@[l].attempt_no == attempt_no
            } else {
                after.logs@[l] == before.logs@[l]
            },
        r is Ok && (forall|l: int|
            0 <= l < before.logs@.len() ==> (#[trigger] before.logs@[l]).run_id@ != run_id || before.logs@[l].attempt_no
                != attempt_no) ==> {
            let log = after.logs@[before.logs@.len() as int];
            &&& after.logs@.len() == before.logs@.len() + 1
            &&& log.run_id@ == run_id
            &&& log.attempt_no == attempt_no
            &&& log.metadata.relative_path@ == relative_path
            &&& log.metadata.stored_bytes == stored_bytes
            &&& log.metadata.complete == complete
            &&& log.metadata.updated_at_ms == now
            &&& log.metadata.expired_at_ms is None
        },
{
    tables::lemma_log_index(before.logs@, run_id, attempt_no);
    assert forall|l: int|
        r is Ok && 0 <= l < before.logs@.len() implies if before.logs@[l].run_id@ == run_id && before.logs@[l].attempt_no
        == attempt_no {
        &&& after.logs@.len() == before.logs@.len()
        &&& (#[trigger] after.logs@[l]).metadata.stored_bytes == stored_bytes
        &&& after.logs@[l].metadata.complete == (before.logs@[l].metadata.complete || complete)
        &&& after.logs@[l].metadata.updated_at_ms == now
        &&& after.logs@[l].metadata.relative_path == before.logs@[l].metadata.relative_path
        &&& after.logs@[l].metadata.expired_at_ms == before.logs@[l].metadata.expired_at_ms
        &&& after.logs@[l].run_id == before.logs@[l].run_id
        &&& after.logs@[l].attempt_no == attempt_no
    } else {
        after.logs@[l] == before.logs@[l]
    } by {
        if before.logs@[l].run_id@ == run_id && before.logs@[l].attempt_no == attempt_no {
            super::lookup::lemma_own_log(before.logs@, l);
        } else if tables::log_index(before.logs@, run_id, attempt_no) is None {
            assert(after.logs@.drop_last()[l] == after.logs@[l]);
        }
    }
}

/// Every log of a known attempt is weighed, as it stands: it may go where it is complete and its attempt
/// has ended.
pub proof fn law_every_log_is_weighed(logs: Seq<LogRow>, attempts: Seq<AttemptRow>, l: int, a: int)
    requires
        wellformed::attempts_unique(attempts),
        0 <= l < logs.len(),
        0 <= a < attempts.len(),
        attempts[a].record.run_id@ == logs[l].run_id@,
        attempts[a].record.attempt_no == logs[l].attempt_no,
    ensures
        exists|e: int|
            0 <= e < entries_of(logs, attempts).len() && {
                let entry = #[trigger] entries_of(logs, attempts)[e];
                &&& entry.run_id == logs[l].run_id
                &&& entry.attempt_no == logs[l].attempt_no
                &&& entry.stored_bytes == logs[l].metadata.stored_bytes
                &&& entry.updated_at_ms == logs[l].metadata.updated_at_ms
                &&& entry.expired_at_ms == logs[l].metadata.expired_at_ms
                &&& entry.eligible == (logs[l].metadata.complete && attempts[a].record.state != AttemptState::Queued
                    && attempts[a].record.state != AttemptState::Accepted && attempts[a].record.state
                    != AttemptState::Running)
            },
    decreases logs.len(),
{
    super::lookup::lemma_own_attempt(attempts, a);
    let all = entries_of(logs, attempts);
    if l == logs.len() - 1 {
        assert(all[all.len() - 1] == retention_entry(attempts, logs[l]));
    } else {
        let rest = logs.drop_last();
        assert(rest[l] == logs[l]);
        law_every_log_is_weighed(rest, attempts, l, a);
        let e = choose|e: int|
            0 <= e < entries_of(rest, attempts).len() && {
                let entry = #[trigger] entries_of(rest, attempts)[e];
                &&& entry.run_id == logs[l].run_id
                &&& entry.attempt_no == logs[l].attempt_no
                &&& entry.stored_bytes == logs[l].metadata.stored_bytes
                &&& entry.updated_at_ms == logs[l].metadata.updated_at_ms
                &&& entry.expired_at_ms == logs[l].metadata.expired_at_ms
                &&& entry.eligible == (logs[l].metadata.complete && attempts[a].record.state != AttemptState::Queued
                    && attempts[a].record.state != AttemptState::Accepted && attempts[a].record.state
                    != AttemptState::Running)
            };
        assert(all[e] == entries_of(rest, attempts)[e]);
    }
}

/// What is weighed is a log as it stands: no more is weighed than is stored.
pub proof fn law_only_logs_are_weighed(logs: Seq<LogRow>, attempts: Seq<AttemptRow>, e: int)
    requires
        0 <= e < entries_of(logs, attempts).len(),
    ensures
        entries_of(logs, attempts).len() <= logs.len(),
        exists|l: int|
            0 <= l < logs.len() && (#[trigger] logs[l]).run_id == entries_of(logs, attempts)[e].run_id && logs[l].attempt_no
                == entries_of(logs, attempts)[e].attempt_no && logs[l].metadata.stored_bytes == entries_of(
                logs,
                attempts,
            )[e].stored_bytes && logs[l].metadata.updated_at_ms == entries_of(logs, attempts)[e].updated_at_ms,
    decreases logs.len(),
{
    let all = entries_of(logs, attempts);
    let rest = logs.drop_last();
    if e < entries_of(rest, attempts).len() {
        law_only_logs_are_weighed(rest, attempts, e);
        let l = choose|l: int|
            0 <= l < rest.len() && (#[trigger] rest[l]).run_id == entries_of(rest, attempts)[e].run_id && rest[l].attempt_no
                == entries_of(rest, attempts)[e].attempt_no && rest[l].metadata.stored_bytes == entries_of(
                rest,
                attempts,
            )[e].stored_bytes && rest[l].metadata.updated_at_ms == entries_of(rest, attempts)[e].updated_at_ms;
        assert(logs[l] == rest[l]);
        assert(all[e] == entries_of(rest, attempts)[e]);
    } else {
        if entries_of(rest, attempts).len() > 0 {
            law_only_logs_are_weighed(rest, attempts, 0);
        }
        assert(logs[logs.len() - 1] == logs.last());
    }
}

} // verus!
