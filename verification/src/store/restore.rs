//! Making restored tables safe: what was under way when the copy was taken is ended.
use super::keys;
use super::retire;
use super::tables::is_active;
use super::tables::AttemptRecord;
use super::tables::AttemptRow;
use super::tables::NodeRecord;
use super::tables::NodeRow;
use super::tables::RunRecord;
use super::tables::RunRow;
use super::tables::Store;
use crate::domain::state::AttemptState;
use crate::domain::state::RunState;
use crate::text;
use vstd::prelude::*;

verus! {

/// The attempt after a restore: interrupted, where it had not ended.
pub open spec fn attempt_interrupted(before: AttemptRow, after: AttemptRow, now: i64) -> bool {
    if before.record.state.terminal() {
        after == before
    } else {
        &&& text::opt_view(after.record.failure_kind) == Some("interrupted"@)
        &&& text::opt_view(after.record.failure_message) == Some("interrupted by offline control-plane restore"@)
        &&& after == (AttemptRow {
            record: AttemptRecord {
                state: AttemptState::Interrupted,
                finished_at_ms: Some(now),
                exit_code: None,
                failure_kind: after.record.failure_kind,
                failure_message: after.record.failure_message,
                ..before.record
            },
            ..before
        })
    }
}

/// The run after a restore: cancelled, where it waited and was never handed out; failed, where it had
/// not ended otherwise.
pub open spec fn run_normalized(attempts: Seq<AttemptRow>, before: RunRow, after: RunRow, now: i64) -> bool {
    if !is_active(before) {
        after == before
    } else {
        let withdrawn = before.record.state is Pending && !retire::dispatched_once(attempts, before.record.id@);
        &&& text::opt_view(after.record.failure_kind) == (if withdrawn {
            None
        } else {
            Some("interrupted"@)
        })
        &&& text::opt_view(after.record.failure_message) == Some(
            if withdrawn {
                "cancelled by offline control-plane restore before dispatch"@
            } else {
                "interrupted by offline control-plane restore"@
            },
        )
        &&& after == (RunRow {
            record: RunRecord {
                state: if withdrawn {
                    RunState::Cancelled
                } else {
                    RunState::Failed
                },
                finished_at_ms: Some(now),
                retry_due_at_ms: None,
                final_exit_code: None,
                failure_kind: after.record.failure_kind,
                failure_message: after.record.failure_message,
                ..before.record
            },
            ..before
        })
    }
}

/// The node after a restore: no agent has reported since.
pub open spec fn node_forgotten(before: NodeRow) -> NodeRow {
    NodeRow {
        record: NodeRecord { active_runs: 0, agent_instance_id: None, agent_boot_id: None, ..before.record },
        ..before
    }
}

/// The tables after a restore.
pub open spec fn normalized(before: Store, after: Store, now: i64) -> bool {
    &&& after.revisions == before.revisions
    &&& after.mirrors == before.mirrors
    &&& after.generations == before.generations
    &&& after.schedules == before.schedules
    &&& after.credentials == before.credentials
    &&& after.logs == before.logs
    &&& after.attempts@.len() == before.attempts@.len()
    &&& forall|i: int|
        0 <= i < before.attempts@.len() ==> attempt_interrupted(before.attempts@[i], #[trigger] after.attempts@[i], now)
    &&& after.runs@.len() == before.runs@.len()
    &&& forall|j: int|
        0 <= j < before.runs@.len() ==> run_normalized(
            before.attempts@,
            before.runs@[j],
            #[trigger] after.runs@[j],
            now,
        )
    &&& after.nodes@ == before.nodes@.map_values(|node: NodeRow| node_forgotten(node))
}

fn was_dispatched(attempts: &Vec<AttemptRow>, run_id: &str) -> (r: bool)
    ensures
        r == retire::dispatched_once(attempts@, run_id@),
{
    let mut i: usize = 0;
    while i < attempts.len()
        invariant
            i <= attempts.len(),
            forall|k: int|
                0 <= k < i ==> !((#[trigger] attempts@[k]).record.run_id@ == run_id@ && attempts@[k].dispatch_count > 0),
        decreases attempts.len() - i,
    {
        if attempts[i].dispatch_count > 0 && text::same(attempts[i].record.run_id.as_str(), run_id) {
            return true;
        }
        i = i + 1;
    }
    false
}

impl Store {
    /// Ends in restored tables whatever was under way, before anything is handed out again. What
    /// schedules have come to stays.
    pub fn normalize_restored_database(&mut self, restored_at_ms: i64)
        requires
            old(self).wf(),
        ensures
            final(self).wf(),
            normalized(*old(self), *final(self), restored_at_ms),
    {
        let ghost start = *self;
        let mut j: usize = 0;
        while j < self.runs.len()
            invariant
                j <= self.runs.len(),
                *self == (Store { runs: self.runs, ..start }),
                self.runs@.len() == start.runs@.len(),
                forall|k: int|
                    0 <= k < j ==> run_normalized(
                        start.attempts@,
                        start.runs@[k],
                        #[trigger] self.runs@[k],
                        restored_at_ms,
                    ),
                forall|k: int| j <= k < start.runs@.len() ==> (#[trigger] self.runs@[k]) == start.runs@[k],
            decreases self.runs.len() - j,
        {
            if !self.runs[j].record.state.is_terminal() {
                let withdrawn: bool = self.runs[j].record.state == RunState::Pending && !was_dispatched(
                    &self.attempts,
                    self.runs[j].record.id.as_str(),
                );
                let row: &mut RunRow = &mut self.runs[j];
                row.record.finished_at_ms = Some(restored_at_ms);
                row.record.retry_due_at_ms = None;
                row.record.final_exit_code = None;
                if withdrawn {
                    row.record.state = RunState::Cancelled;
                    row.record.failure_kind = None;
                    row.record.failure_message = Some(
                        "cancelled by offline control-plane restore before dispatch".to_owned(),
                    );
                } else {
                    row.record.state = RunState::Failed;
                    row.record.failure_kind = Some("interrupted".to_owned());
                    row.record.failure_message = Some("interrupted by offline control-plane restore".to_owned());
                }
            }
            j = j + 1;
        }
        let ghost middle = *self;
        let mut i: usize = 0;
        while i < self.attempts.len()
            invariant
                i <= self.attempts.len(),
                *self == (Store { attempts: self.attempts, ..middle }),
                middle.attempts == start.attempts,
                self.attempts@.len() == start.attempts@.len(),
                forall|k: int|
                    0 <= k < i ==> attempt_interrupted(
                        start.attempts@[k],
                        #[trigger] self.attempts@[k],
                        restored_at_ms,
                    ),
                forall|k: int| i <= k < start.attempts@.len() ==> (#[trigger] self.attempts@[k]) == start.attempts@[k],
            decreases self.attempts.len() - i,
        {
            if !self.attempts[i].record.state.is_terminal() {
                let row: &mut AttemptRow = &mut self.attempts[i];
                row.record.state = AttemptState::Interrupted;
                row.record.finished_at_ms = Some(restored_at_ms);
                row.record.exit_code = None;
                row.record.failure_kind = Some("interrupted".to_owned());
                row.record.failure_message = Some("interrupted by offline control-plane restore".to_owned());
            }
            i = i + 1;
        }
        proof {
            keys::lemma_keys_kept(start, *self);
        }
        let ghost late = *self;
        let mut n: usize = 0;
        while n < self.nodes.len()
            invariant
                n <= self.nodes.len(),
                *self == (Store { nodes: self.nodes, ..late }),
                late.nodes == start.nodes,
                self.nodes@.len() == start.nodes@.len(),
                forall|k: int| 0 <= k < n ==> (#[trigger] self.nodes@[k]) == node_forgotten(start.nodes@[k]),
                forall|k: int| n <= k < start.nodes@.len() ==> (#[trigger] self.nodes@[k]) == start.nodes@[k],
            decreases self.nodes.len() - n,
        {
            let row: &mut NodeRow = &mut self.nodes[n];
            row.record.active_runs = 0;
            row.record.agent_instance_id = None;
            row.record.agent_boot_id = None;
            n = n + 1;
        }
        assert(self.nodes@ == start.nodes@.map_values(|node: NodeRow| node_forgotten(node)));
        assert forall|x: int, y: int| 0 <= x < y < self.nodes@.len() implies (#[trigger] self.nodes@[x]).record.name@
            != (#[trigger] self.nodes@[y]).record.name@ by {
            assert(start.nodes@[x].record.name@ != start.nodes@[y].record.name@);
        }
    }
}

/// After a restore nothing is under way: no run and no attempt is left open, so that nothing can be
/// handed out again that may still execute somewhere.
pub proof fn law_restore_leaves_nothing_open(before: Store, after: Store, now: i64)
    requires
        normalized(before, after, now),
    ensures
        forall|j: int| 0 <= j < after.runs@.len() ==> !is_active(#[trigger] after.runs@[j]),
        forall|i: int| 0 <= i < after.attempts@.len() ==> (#[trigger] after.attempts@[i]).record.state.terminal(),
        after.schedules == before.schedules,
{
}

/// After a restore nothing runs on: every attempt that had not ended was interrupted then, every run that
/// had not ended failed, or was cancelled where it waited and nothing of it was ever handed out, and no
/// node counts a run. What had ended stays as it was.
pub proof fn law_restored_work_ends_by_what_was_handed_out(before: Store, after: Store, now: i64)
    requires
        normalized(before, after, now),
    ensures
        after.attempts@.len() == before.attempts@.len(),
        forall|i: int|
            0 <= i < before.attempts@.len() ==> {
                let was = before.attempts@[i].record.state;
                if was == AttemptState::Queued || was == AttemptState::Accepted || was == AttemptState::Running {
                    &&& (#[trigger] after.attempts@[i]).record.state == AttemptState::Interrupted
                    &&& after.attempts@[i].record.finished_at_ms == Some(now)
                    &&& after.attempts@[i].record.exit_code is None
                    &&& after.attempts@[i].record.run_id == before.attempts@[i].record.run_id
                    &&& after.attempts@[i].record.attempt_no == before.attempts@[i].record.attempt_no
                    &&& after.attempts@[i].record.started_at_ms == before.attempts@[i].record.started_at_ms
                    &&& after.attempts@[i].record.last_event_sequence == before.attempts@[i].record.last_event_sequence
                    &&& after.attempts@[i].dispatch_count == before.attempts@[i].dispatch_count
                } else {
                    after.attempts@[i] == before.attempts@[i]
                }
            },
        after.runs@.len() == before.runs@.len(),
        forall|j: int|
            0 <= j < before.runs@.len() ==> {
                let was = before.runs@[j].record;
                let handed_out = exists|i: int|
                    0 <= i < before.attempts@.len() && (#[trigger] before.attempts@[i]).record.run_id@ == was.id@
                        && before.attempts@[i].dispatch_count > 0;
                &&& was.state == RunState::Running || (was.state == RunState::Pending && handed_out) ==> (#[trigger] after.runs@[j]).record.state
                    == RunState::Failed
                &&& was.state == RunState::Pending && !handed_out ==> after.runs@[j].record.state == RunState::Cancelled
                    && after.runs@[j].record.failure_kind is None
                &&& was.state == RunState::Pending || was.state == RunState::Running ==> after.runs@[j].record.finished_at_ms
                    == Some(now) && after.runs@[j].record.retry_due_at_ms is None && after.runs@[j].record.final_exit_code is None
                    && after.runs@[j].record.id == was.id && after.runs@[j].record.mirror_name == was.mirror_name
                    && after.runs@[j].record.created_at_ms == was.created_at_ms && after.runs@[j].attempt_count
                    == before.runs@[j].attempt_count
                &&& was.state != RunState::Pending && was.state != RunState::Running ==> after.runs@[j] == before.runs@[j]
            },
        after.nodes@.len() == before.nodes@.len(),
        forall|n: int|
            0 <= n < before.nodes@.len() ==> {
                &&& (#[trigger] after.nodes@[n]).record.active_runs == 0
                &&& after.nodes@[n].record.agent_instance_id is None
                &&& after.nodes@[n].record.agent_boot_id is None
                &&& after.nodes@[n].record.bound_agent_id == before.nodes@[n].record.bound_agent_id
                &&& after.nodes@[n].record.name == before.nodes@[n].record.name
                &&& after.nodes@[n].record.max_concurrent_runs == before.nodes@[n].record.max_concurrent_runs
                &&& after.nodes@[n].record.last_seen_at_ms == before.nodes@[n].record.last_seen_at_ms
                &&& after.nodes@[n].mirror_root == before.nodes@[n].mirror_root
            },
        after.schedules == before.schedules,
        after.mirrors == before.mirrors,
        after.credentials == before.credentials,
        after.logs == before.logs,
{
}

} // verus!
