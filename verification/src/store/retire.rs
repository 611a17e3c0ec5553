//! What becomes of a mirror's runs when its configuration takes the mirror away.
use super::keys;
use super::tables;
use super::tables::AttemptRow;
use super::tables::RunRecord;
use super::tables::RunRow;
use super::tables::Store;
use super::wellformed;
use crate::domain::state::AttemptState;
use crate::domain::state::RunState;
use crate::text;
use vstd::prelude::*;

verus! {

/// True when one of a run's attempts has been handed out.
pub open spec fn dispatched_once(attempts: Seq<AttemptRow>, run_id: Seq<char>) -> bool {
    exists|i: int|
        0 <= i < attempts.len() && (#[trigger] attempts[i]).record.run_id@ == run_id && attempts[i].dispatch_count > 0
}

/// A run as its mirror's leaving leaves it: where pending runs are withdrawn, one that was never
/// handed out is cancelled; one that waits for a retry ends as its last attempt did.
pub open spec fn run_retired(s: Store, j: int, after: RunRow, now: i64, withdraw: bool) -> bool {
    let run = s.runs@[j];
    let last = tables::attempt_index(s.attempts@, run.record.id@, run.attempt_count);
    if withdraw && run.record.state is Pending && !dispatched_once(s.attempts@, run.record.id@) {
        &&& text::opt_view(after.record.failure_kind) == Some("configuration_removed"@)
        &&& text::opt_view(after.record.failure_message) == Some(
            "configuration disabled or removed before dispatch"@,
        )
        &&& after == (RunRow {
            record: RunRecord {
                state: RunState::Cancelled,
                finished_at_ms: Some(now),
                failure_kind: after.record.failure_kind,
                failure_message: after.record.failure_message,
                ..run.record
            },
            ..run
        })
    } else if run.record.state is Running && run.record.retry_due_at_ms is Some && last is Some {
        let attempt = s.attempts@[last->0].record;
        after == (RunRow {
            record: RunRecord {
                state: if attempt.state is TimedOut { RunState::TimedOut } else { RunState::Failed },
                finished_at_ms: Some(now),
                retry_due_at_ms: None,
                final_exit_code: attempt.exit_code,
                failure_kind: attempt.failure_kind,
                failure_message: attempt.failure_message,
                ..run.record
            },
            ..run
        })
    } else {
        after == run
    }
}

/// An attempt as its mirror's leaving leaves it: where pending runs are withdrawn, one of a pending
/// run that is queued and was never handed out is cancelled.
pub open spec fn attempt_retired(s: Store, i: int, now: i64, withdraw: bool) -> AttemptRow {
    let attempt = s.attempts@[i];
    if withdraw && super::dispatch::run_row(s, i).record.state is Pending && attempt.dispatch_count == 0
        && attempt.record.state is Queued {
        AttemptRow {
            record: tables::AttemptRecord {
                state: AttemptState::Cancelled,
                finished_at_ms: Some(now),
                ..attempt.record
            },
            ..attempt
        }
    } else {
        attempt
    }
}

/// The runs and attempts of one mirror as its leaving leaves them; those of other mirrors stay.
pub open spec fn mirror_retired(before: Store, after: Store, mirror: Seq<char>, now: i64, withdraw: bool) -> bool {
    &&& after.revisions == before.revisions
    &&& after.mirrors == before.mirrors
    &&& after.generations == before.generations
    &&& after.schedules == before.schedules
    &&& after.nodes == before.nodes
    &&& after.credentials == before.credentials
    &&& after.logs == before.logs
    &&& after.runs@.len() == before.runs@.len()
    &&& forall|j: int|
        0 <= j < before.runs@.len() ==> if before.runs@[j].record.mirror_name@ == mirror {
            run_retired(before, j, #[trigger] after.runs@[j], now, withdraw)
        } else {
            after.runs@[j] == before.runs@[j]
        }
    &&& after.attempts@.len() == before.attempts@.len()
    &&& forall|i: int|
        0 <= i < before.attempts@.len() ==> (#[trigger] after.attempts@[i]) == (if super::dispatch::run_row(
            before,
            i,
        ).record.mirror_name@ == mirror {
            attempt_retired(before, i, now, withdraw)
        } else {
            before.attempts@[i]
        })
}

fn was_dispatched(attempts: &Vec<AttemptRow>, run_id: &str) -> (r: bool)
    ensures
        r == dispatched_once(attempts@, run_id@),
{
    let mut i: usize = 0;
    while i < attempts.len()
        invariant
            i <= attempts.len(),
            forall|k: int|
                0 <= k < i ==> !((#[trigger] attempts@[k]).record.run_id@ == run_id@ && attempts@[k].dispatch_count
                    > 0),
        decreases attempts.len() - i,
    {
        if attempts[i].dispatch_count > 0 && text::same(attempts[i].record.run_id.as_str(), run_id) {
            return true;
        }
        i = i + 1;
    }
    false
}

impl Store {
    fn retire_run(&mut self, j: usize, now: i64, withdraw: bool)
        requires
            j < old(self).runs@.len(),
        ensures
            final(self).revisions == old(self).revisions,
            final(self).mirrors == old(self).mirrors,
            final(self).generations == old(self).generations,
            final(self).schedules == old(self).schedules,
            final(self).attempts == old(self).attempts,
            final(self).nodes == old(self).nodes,
            final(self).credentials == old(self).credentials,
            final(self).logs == old(self).logs,
            final(self).runs@ == old(self).runs@.update(j as int, final(self).runs@[j as int]),
            run_retired(*old(self), j as int, final(self).runs@[j as int], now, withdraw),
    {
        let ghost start = *self;
        let state: RunState = self.runs[j].record.state;
        if withdraw && state == RunState::Pending && !was_dispatched(&self.attempts, self.runs[j].record.id.as_str()) {
            let run: &mut RunRow = &mut self.runs[j];
            run.record.state = RunState::Cancelled;
            run.record.finished_at_ms = Some(now);
            run.record.failure_kind = Some("configuration_removed".to_owned());
            run.record.failure_message = Some("configuration disabled or removed before dispatch".to_owned());
        } else if state == RunState::Running && self.runs[j].record.retry_due_at_ms.is_some() {
            if let Some(a) = tables::find_attempt(
                &self.attempts,
                self.runs[j].record.id.as_str(),
                self.runs[j].attempt_count,
            ) {
                let attempt: &tables::AttemptRecord = &self.attempts[a].record;
                let run: &mut RunRow = &mut self.runs[j];
                run.record.state = if attempt.state == AttemptState::TimedOut {
                    RunState::TimedOut
                } else {
                    RunState::Failed
                };
                run.record.finished_at_ms = Some(now);
                run.record.retry_due_at_ms = None;
                run.record.final_exit_code = attempt.exit_code;
                run.record.failure_kind = text::clone_opt(&attempt.failure_kind);
                run.record.failure_message = text::clone_opt(&attempt.failure_message);
            }
        }
        assert(self.runs@ == start.runs@.update(j as int, self.runs@[j as int]));
    }

    fn retire_attempts(&mut self, mirror: &str, now: i64)
        requires
            old(self).wf(),
        ensures
            final(self).wf(),
            final(self).revisions == old(self).revisions,
            final(self).mirrors == old(self).mirrors,
            final(self).generations == old(self).generations,
            final(self).schedules == old(self).schedules,
            final(self).runs == old(self).runs,
            final(self).nodes == old(self).nodes,
            final(self).credentials == old(self).credentials,
            final(self).logs == old(self).logs,
            final(self).attempts@.len() == old(self).attempts@.len(),
            forall|i: int|
                0 <= i < old(self).attempts@.len() ==> (#[trigger] final(self).attempts@[i])
                    == (if super::dispatch::run_row(*old(self), i).record.mirror_name@ == mirror@ {
                    attempt_retired(*old(self), i, now, true)
                } else {
                    old(self).attempts@[i]
                }),
    {
        let ghost start = *self;
        let mut i: usize = 0;
        while i < self.attempts.len()
            invariant
                start.wf(),
                i <= self.attempts.len(),
                self.revisions == start.revisions,
                self.mirrors == start.mirrors,
                self.generations == start.generations,
                self.schedules == start.schedules,
                self.runs == start.runs,
                self.nodes == start.nodes,
                self.credentials == start.credentials,
                self.logs == start.logs,
                self.attempts@.len() == start.attempts@.len(),
                forall|k: int|
                    0 <= k < i ==> (#[trigger] self.attempts@[k]) == (if super::dispatch::run_row(
                        start,
                        k,
                    ).record.mirror_name@ == mirror@ {
                        attempt_retired(start, k, now, true)
                    } else {
                        start.attempts@[k]
                    }),
                forall|k: int| i <= k < start.attempts@.len() ==> (#[trigger] self.attempts@[k]) == start.attempts@[k],
            decreases self.attempts.len() - i,
        {
            proof {
                assert(start.attempts@[i as int] == self.attempts@[i as int]);
                assert(wellformed::has_run(start.runs@, start.attempts@[i as int].record.run_id@));
                tables::lemma_run_index(start.runs@, start.attempts@[i as int].record.run_id@);
            }
            let j: usize = tables::find_run(&self.runs, self.attempts[i].record.run_id.as_str()).unwrap();
            let wanted: bool = self.runs[j].record.state == RunState::Pending && self.attempts[i].dispatch_count == 0
                && self.attempts[i].record.state == AttemptState::Queued && text::same(
                self.runs[j].record.mirror_name.as_str(),
                mirror,
            );
            if wanted {
                let row: &mut AttemptRow = &mut self.attempts[i];
                row.record.state = AttemptState::Cancelled;
                row.record.finished_at_ms = Some(now);
            }
            i = i + 1;
        }
        proof {
            keys::lemma_keys_kept(start, *self);
        }
    }

    /// Retires the runs of a mirror; `withdraw` tells whether pending runs go too.
    pub fn retire_mirror(&mut self, mirror: &str, now: i64, withdraw: bool)
        requires
            old(self).wf(),
        ensures
            final(self).wf(),
            mirror_retired(*old(self), *final(self), mirror@, now, withdraw),
    {
        let ghost start = *self;
        if withdraw {
            self.retire_attempts(mirror, now);
        }
        let ghost middle = *self;
        proof {
            assert forall|run_id: Seq<char>| #[trigger] dispatched_once(middle.attempts@, run_id) == dispatched_once(
                start.attempts@,
                run_id,
            ) by {
                assert forall|i: int| 0 <= i < start.attempts@.len() implies (#[trigger] middle.attempts@[i]).record.run_id
                    == start.attempts@[i].record.run_id && middle.attempts@[i].dispatch_count
                    == start.attempts@[i].dispatch_count by {}
                if dispatched_once(start.attempts@, run_id) {
                    let i = choose|i: int|
                        0 <= i < start.attempts@.len() && (#[trigger] start.attempts@[i]).record.run_id@ == run_id
                            && start.attempts@[i].dispatch_count > 0;
                    assert(middle.attempts@[i].record.run_id@ == run_id);
                }
                if dispatched_once(middle.attempts@, run_id) {
                    let i = choose|i: int|
                        0 <= i < middle.attempts@.len() && (#[trigger] middle.attempts@[i]).record.run_id@ == run_id
                            && middle.attempts@[i].dispatch_count > 0;
                    assert(start.attempts@[i].record.run_id@ == run_id);
                }
            }
        }
        let mut j: usize = 0;
        while j < self.runs.len()
            invariant
                start.wf(),
                middle.wf(),
                middle.runs == start.runs,
                j <= self.runs.len(),
                self.revisions == start.revisions,
                self.mirrors == start.mirrors,
                self.generations == start.generations,
                self.schedules == start.schedules,
                self.attempts == middle.attempts,
                self.nodes == start.nodes,
                self.credentials == start.credentials,
                self.logs == start.logs,
                self.runs@.len() == start.runs@.len(),
                keys::attempt_keys_kept(start.attempts@, middle.attempts@),
                forall|i: int|
                    0 <= i < start.attempts@.len() ==> (#[trigger] middle.attempts@[i])
                        == (if super::dispatch::run_row(start, i).record.mirror_name@ == mirror@ {
                        attempt_retired(start, i, now, withdraw)
                    } else {
                        start.attempts@[i]
                    }),
                forall|run_id: Seq<char>| #[trigger]
                    dispatched_once(middle.attempts@, run_id) == dispatched_once(start.attempts@, run_id),
                forall|k: int|
                    0 <= k < j ==> if start.runs@[k].record.mirror_name@ == mirror@ {
                        run_retired(start, k, #[trigger] self.runs@[k], now, withdraw)
                    } else {
                        self.runs@[k] == start.runs@[k]
                    },
                forall|k: int| j <= k < start.runs@.len() ==> (#[trigger] self.runs@[k]) == start.runs@[k],
            decreases self.runs.len() - j,
        {
            if text::same(self.runs[j].record.mirror_name.as_str(), mirror) {
                let ghost now_at = *self;
                self.retire_run(j, now, withdraw);
                proof {
                    let run = start.runs@[j as int];
                    lemma_attempt_index_kept(start.attempts@, middle.attempts@, run.record.id@, run.attempt_count);
                    tables::lemma_attempt_index(start.attempts@, run.record.id@, run.attempt_count);
                    if run.record.state is Running {
                        if let Some(a) = tables::attempt_index(start.attempts@, run.record.id@, run.attempt_count) {
                            tables::lemma_run_index(start.runs@, start.attempts@[a].record.run_id@);
                            assert(wellformed::has_run(start.runs@, start.attempts@[a].record.run_id@));
                            assert(super::dispatch::run_row(start, a) == run);
                            assert(middle.attempts@[a] == start.attempts@[a]);
                        }
                    }
                    assert(run_retired(start, j as int, self.runs@[j as int], now, withdraw));
                }
            }
            j = j + 1;
        }
        proof {
            keys::lemma_keys_kept(start, *self);
        }
    }
}

/// The place of an attempt rests on its keys alone.
pub proof fn lemma_attempt_index_kept(
    before: Seq<AttemptRow>,
    after: Seq<AttemptRow>,
    run_id: Seq<char>,
    attempt_no: u32,
)
    requires
        keys::attempt_keys_kept(before, after),
    ensures
        tables::attempt_index(after, run_id, attempt_no) == tables::attempt_index(before, run_id, attempt_no),
    decreases before.len(),
{
    if before.len() > 0 {
        let x = before.drop_last();
        let y = after.drop_last();
        assert(after.last().record.run_id == before.last().record.run_id);
        assert forall|i: int| 0 <= i < x.len() implies (#[trigger] y[i]).record.run_id == x[i].record.run_id
            && y[i].record.attempt_no == x[i].record.attempt_no by {
            assert(after[i].record.run_id == before[i].record.run_id);
        }
        lemma_attempt_index_kept(x, y, run_id, attempt_no);
    }
}

/// Retiring a mirror ends what of it waits and nothing that runs: a run that waits and of which nothing
/// was ever handed out is cancelled where the mirror goes out of force, a run that waits for its next
/// attempt ends as its latest attempt did, and every other run stays.
pub proof fn law_retiring_ends_what_waits(
    before: Store,
    after: Store,
    mirror: Seq<char>,
    now: i64,
    withdraw: bool,
    j: int,
)
    requires
        before.wf(),
        mirror_retired(before, after, mirror, now, withdraw),
        0 <= j < before.runs@.len(),
    ensures
        ({
            let was = before.runs@[j].record;
            let now_is = after.runs@[j].record;
            let handed_out = exists|i: int|
                0 <= i < before.attempts@.len() && (#[trigger] before.attempts@[i]).record.run_id@ == was.id@
                    && before.attempts@[i].dispatch_count > 0;
            let mine = was.mirror_name@ == mirror;
            &&& mine && withdraw && was.state == RunState::Pending && !handed_out ==> now_is.state == RunState::Cancelled
                && now_is.finished_at_ms == Some(now) && now_is.failure_kind is Some && now_is.failure_message is Some
                && now_is.id == was.id && now_is.created_at_ms == was.created_at_ms
            &&& mine && was.state == RunState::Pending && (handed_out || !withdraw) ==> after.runs@[j] == before.runs@[j]
            &&& mine && was.state == RunState::Running && was.retry_due_at_ms is None ==> after.runs@[j] == before.runs@[j]
            &&& !mine || (was.state != RunState::Pending && was.state != RunState::Running) ==> after.runs@[j]
                == before.runs@[j]
            &&& forall|i: int|
                mine && was.state == RunState::Running && was.retry_due_at_ms is Some && 0 <= i < before.attempts@.len()
                    && (#[trigger] before.attempts@[i]).record.run_id@ == was.id@ && before.attempts@[i].record.attempt_no
                    == before.runs@[j].attempt_count ==> {
                    &&& now_is.state == (if before.attempts@[i].record.state == AttemptState::TimedOut {
                        RunState::TimedOut
                    } else {
                        RunState::Failed
                    })
                    &&& now_is.finished_at_ms == Some(now)
                    &&& now_is.retry_due_at_ms is None
                    &&& now_is.final_exit_code == before.attempts@[i].record.exit_code
                    &&& now_is.failure_kind == before.attempts@[i].record.failure_kind
                    &&& now_is.failure_message == before.attempts@[i].record.failure_message
                    &&& now_is.id == was.id
                }
        }),
        after.runs@.len() == before.runs@.len(),
        after.schedules == before.schedules,
        after.nodes == before.nodes,
{
    let was = before.runs@[j].record;
    if was.mirror_name@ == mirror {
        assert(run_retired(before, j, after.runs@[j], now, withdraw));
        assert forall|i: int|
            0 <= i < before.attempts@.len() && (#[trigger] before.attempts@[i]).record.run_id@ == was.id@
                && before.attempts@[i].record.attempt_no == before.runs@[j].attempt_count implies tables::attempt_index(
            before.attempts@,
            was.id@,
            before.runs@[j].attempt_count,
        ) == Some(i) by {
            super::lookup::lemma_own_attempt(before.attempts@, i);
        }
    }
}

/// With a mirror that goes out of force the attempts of its waiting runs that were never handed out are
/// cancelled; no other attempt changes.
pub proof fn law_retiring_withdraws_what_was_never_handed_out(
    before: Store,
    after: Store,
    mirror: Seq<char>,
    now: i64,
    withdraw: bool,
    i: int,
    j: int,
)
    requires
        before.wf(),
        mirror_retired(before, after, mirror, now, withdraw),
        0 <= i < before.attempts@.len(),
        0 <= j < before.runs@.len(),
        before.runs@[j].record.id@ == before.attempts@[i].record.run_id@,
    ensures
        ({
            let withdrawn = withdraw && before.runs@[j].record.mirror_name@ == mirror && before.runs@[j].record.state
                == RunState::Pending && before.attempts@[i].dispatch_count == 0 && before.attempts@[i].record.state
                == AttemptState::Queued;
            &&& withdrawn ==> after.attempts@[i].record.state == AttemptState::Cancelled
                && after.attempts@[i].record.finished_at_ms == Some(now) && after.attempts@[i].dispatch_count == 0
                && after.attempts@[i].record.run_id == before.attempts@[i].record.run_id
                && after.attempts@[i].record.attempt_no == before.attempts@[i].record.attempt_no
            &&& !withdrawn ==> after.attempts@[i] == before.attempts@[i]
        }),
        after.attempts@.len() == before.attempts@.len(),
{
    super::lookup::lemma_own_run(before.runs@, j);
}

} // verus!
