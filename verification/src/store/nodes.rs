//! Nodes and the agents that are bound to them.
use super::credentials::only_access_changes;
use super::tables;
use super::tables::is_active;
use super::tables::NodeRecord;
use super::tables::NodeRow;
use super::tables::Store;
use super::tables::StoreError;
use crate::domain::state::AttemptState;
use crate::domain::state::RunState;
use crate::text;
use vstd::prelude::*;

verus! {

/// What an agent reports of its node.
#[derive(Debug, PartialEq, Eq)]
pub struct NodeObservation {
    pub node: String,
    pub agent_version: String,
    pub agent_instance_id: String,
    pub agent_boot_id: String,
    pub active_runs: u32,
    pub max_concurrent_runs: u32,
    pub mirror_root_free_bytes: Option<u64>,
    pub mirror_root: String,
    pub observed_at_ms: i64,
}

/// The node as the agent reports it; the first agent that reports is bound to the node.
pub open spec fn observed(row: NodeRow, observation: NodeObservation) -> NodeRow {
    NodeRow {
        record: NodeRecord {
            name: row.record.name,
            agent_version: Some(observation.agent_version),
            agent_instance_id: Some(observation.agent_instance_id),
            bound_agent_id: match row.record.bound_agent_id {
                Some(bound) => Some(bound),
                None => Some(observation.agent_instance_id),
            },
            agent_boot_id: Some(observation.agent_boot_id),
            last_seen_at_ms: Some(observation.observed_at_ms),
            active_runs: observation.active_runs,
            mirror_root_free_bytes: observation.mirror_root_free_bytes,
            max_concurrent_runs: observation.max_concurrent_runs,
        },
        registered_at_ms: row.registered_at_ms,
        mirror_root: Some(observation.mirror_root),
    }
}

/// True when another agent than the one that reports is bound to the node.
pub open spec fn bound_elsewhere(row: NodeRow, observation: NodeObservation) -> bool {
    row.record.bound_agent_id is Some && row.record.bound_agent_id->0@ != observation.agent_instance_id@
}

/// True when attempt `i` may be executing on the node: it was handed out, has not ended, and
/// neither has its run.
pub open spec fn may_execute(s: Store, node: Seq<char>, i: int) -> bool {
    &&& s.attempts@[i].dispatch_count > 0
    &&& !s.attempts@[i].record.state.terminal()
    &&& exists|j: int|
        0 <= j < s.runs@.len() && (#[trigger] s.runs@[j]).record.id@ == s.attempts@[i].record.run_id@
            && s.runs@[j].record.owner_node@ == node && is_active(s.runs@[j])
}

/// True when something may be executing on the node.
pub open spec fn node_may_execute(s: Store, node: Seq<char>) -> bool {
    exists|i: int| 0 <= i < s.attempts@.len() && #[trigger] may_execute(s, node, i)
}

/// What a report of an agent on its node comes to.
pub open spec fn observation_outcome(
    before: Store,
    after: Store,
    observation: NodeObservation,
    r: Result<(), StoreError>,
) -> bool {
    match tables::node_index(before.nodes@, observation.node@) {
        None => r is Err && r->Err_0 is Database && after == before,
        Some(i) => if bound_elsewhere(before.nodes@[i], observation) {
            &&& r == Err::<(), StoreError>(
                StoreError::AgentBindingConflict {
                    bound_agent_id: before.nodes@[i].record.bound_agent_id->0,
                    presented_agent_id: observation.agent_instance_id,
                },
            )
            &&& after == before
        } else {
            &&& r is Ok
            &&& after.nodes@ == before.nodes@.update(i, observed(before.nodes@[i], observation))
        },
    }
}

/// What giving a node to another agent comes to.
pub open spec fn binding_outcome(
    before: Store,
    after: Store,
    node: Seq<char>,
    agent_id: Seq<char>,
    acknowledge_execution_risk: bool,
    r: Result<(), StoreError>,
) -> bool {
    match tables::node_index(before.nodes@, node) {
        None => r == Err::<(), StoreError>(StoreError::AttemptNotFound) && after == before,
        Some(i) => if node_may_execute(before, node) && !acknowledge_execution_risk {
            r == Err::<(), StoreError>(StoreError::BindingReplacementUnsafe) && after == before
        } else {
            &&& r is Ok
            &&& after.nodes@.len() == before.nodes@.len()
            &&& after.nodes@ == before.nodes@.update(i, after.nodes@[i])
            &&& after.nodes@[i].record.bound_agent_id is Some
            &&& after.nodes@[i].record.bound_agent_id->0@ == agent_id
            &&& after.nodes@[i] == (NodeRow {
                record: NodeRecord {
                    bound_agent_id: after.nodes@[i].record.bound_agent_id,
                    agent_instance_id: None,
                    agent_boot_id: None,
                    ..before.nodes@[i].record
                },
                ..before.nodes@[i]
            })
        },
    }
}

impl Store {
    /// Notes what an agent reports of its node. An agent other than the bound one is refused, and
    /// so is a node that is not known.
    pub fn observe_node(&mut self, observation: NodeObservation) -> (r: Result<(), StoreError>)
        requires
            old(self).wf(),
        ensures
            final(self).wf(),
            only_access_changes(*old(self), *final(self)),
            final(self).credentials == old(self).credentials,
            observation_outcome(*old(self), *final(self), observation, r),
    {
        proof {
            tables::lemma_node_index(self.nodes@, observation.node@);
        }
        match tables::find_node(&self.nodes, observation.node.as_str()) {
            None => Err(StoreError::Database("Query returned no rows".to_owned())),
            Some(i) => {
                if let Some(bound) = &self.nodes[i].record.bound_agent_id {
                    if !text::same(bound.as_str(), observation.agent_instance_id.as_str()) {
                        return Err(
                            StoreError::AgentBindingConflict {
                                bound_agent_id: bound.clone(),
                                presented_agent_id: observation.agent_instance_id,
                            },
                        );
                    }
                }
                let row: &mut NodeRow = &mut self.nodes[i];
                row.record.agent_version = Some(observation.agent_version);
                if row.record.bound_agent_id.is_none() {
                    row.record.bound_agent_id = Some(observation.agent_instance_id.clone());
                }
                row.record.agent_instance_id = Some(observation.agent_instance_id);
                row.record.agent_boot_id = Some(observation.agent_boot_id);
                row.record.last_seen_at_ms = Some(observation.observed_at_ms);
                row.record.active_runs = observation.active_runs;
                row.record.mirror_root_free_bytes = observation.mirror_root_free_bytes;
                row.record.max_concurrent_runs = observation.max_concurrent_runs;
                row.mirror_root = Some(observation.mirror_root);
                Ok(())
            },
        }
    }

    fn executes(&self, node: &str) -> (r: bool)
        requires
            self.wf(),
        ensures
            r == node_may_execute(*self, node@),
    {
        let mut i: usize = 0;
        while i < self.attempts.len()
            invariant
                self.wf(),
                i <= self.attempts.len(),
                forall|k: int| 0 <= k < i ==> !#[trigger] may_execute(*self, node@, k),
            decreases self.attempts.len() - i,
        {
            if self.attempts[i].dispatch_count > 0 && !self.attempts[i].record.state.is_terminal() {
                let ghost run_id = self.attempts@[i as int].record.run_id@;
                proof {
                    tables::lemma_run_index(self.runs@, run_id);
                }
                if let Some(j) = tables::find_run(&self.runs, self.attempts[i].record.run_id.as_str()) {
                    if !self.runs[j].record.state.is_terminal() && text::same(
                        self.runs[j].record.owner_node.as_str(),
                        node,
                    ) {
                        assert(may_execute(*self, node@, i as int)) by {
                            assert(self.runs@[j as int].record.id@ == run_id);
                        }
                        return true;
                    }
                }
            }
            i = i + 1;
        }
        false
    }

    /// Binds another agent to a node. While something may be executing there, that takes an
    /// acknowledgement.
    pub fn replace_agent_binding(&mut self, node: &str, agent_id: &str, acknowledge_execution_risk: bool) -> (r: Result<
        (),
        StoreError,
    >)
        requires
            old(self).wf(),
        ensures
            final(self).wf(),
            only_access_changes(*old(self), *final(self)),
            final(self).credentials == old(self).credentials,
            binding_outcome(*old(self), *final(self), node@, agent_id@, acknowledge_execution_risk, r),
    {
        proof {
            tables::lemma_node_index(self.nodes@, node@);
        }
        match tables::find_node(&self.nodes, node) {
            None => Err(StoreError::AttemptNotFound),
            Some(i) => {
                if !acknowledge_execution_risk && self.executes(node) {
                    return Err(StoreError::BindingReplacementUnsafe);
                }
                let row: &mut NodeRow = &mut self.nodes[i];
                row.record.bound_agent_id = Some(agent_id.to_owned());
                row.record.agent_instance_id = None;
                row.record.agent_boot_id = None;
                Ok(())
            },
        }
    }
}

/// A binding is durable: whatever agent reports, the bound agent stays the bound one.
pub proof fn law_binding_is_durable(row: NodeRow, observation: NodeObservation)
    requires
        row.record.bound_agent_id is Some,
    ensures
        observed(row, observation).record.bound_agent_id == row.record.bound_agent_id,
{
}

/// After a first report, every other agent is turned away.
pub proof fn law_binding_fences_others(row: NodeRow, first: NodeObservation, other: NodeObservation)
    requires
        !bound_elsewhere(row, first),
        other.agent_instance_id@ != first.agent_instance_id@,
    ensures
        bound_elsewhere(observed(row, first), other),
{
}

/// A report is taken from the agent that a node is bound to, or from the first one that reports: the
/// node is then as reported, and bound to that agent. A report of any other agent is refused, with both
/// names, and changes nothing.
pub proof fn law_nodes_are_as_their_agent_reports(
    before: Store,
    after: Store,
    observation: NodeObservation,
    r: Result<(), StoreError>,
    i: int,
)
    requires
        before.wf(),
        observation_outcome(before, after, observation, r),
        0 <= i < before.nodes@.len(),
        before.nodes@[i].record.name@ == observation.node@,
    ensures
        r is Ok <==> before.nodes@[i].record.bound_agent_id is None || before.nodes@[i].record.bound_agent_id->0@
            == observation.agent_instance_id@,
        r is Err ==> {
            &&& after == before
            &&& r->Err_0 is AgentBindingConflict
            &&& r->Err_0->bound_agent_id@ == before.nodes@[i].record.bound_agent_id->0@
            &&& r->Err_0->presented_agent_id@ == observation.agent_instance_id@
        },
        r is Ok ==> {
            let was = before.nodes@[i];
            let row = after.nodes@[i];
            &&& row.record.bound_agent_id is Some
            &&& row.record.bound_agent_id->0@ == observation.agent_instance_id@
            &&& row.record.agent_instance_id is Some
            &&& row.record.agent_instance_id->0@ == observation.agent_instance_id@
            &&& row.record.agent_boot_id is Some
            &&& row.record.agent_boot_id->0@ == observation.agent_boot_id@
            &&& row.record.agent_version is Some
            &&& row.record.agent_version->0@ == observation.agent_version@
            &&& row.record.last_seen_at_ms == Some(observation.observed_at_ms)
            &&& row.record.active_runs == observation.active_runs
            &&& row.record.max_concurrent_runs == observation.max_concurrent_runs
            &&& row.record.mirror_root_free_bytes == observation.mirror_root_free_bytes
            &&& row.mirror_root is Some
            &&& row.mirror_root->0@ == observation.mirror_root@
            &&& row.record.name == was.record.name
            &&& row.registered_at_ms == was.registered_at_ms
            &&& after.nodes@.len() == before.nodes@.len()
            &&& forall|o: int| 0 <= o < before.nodes@.len() && o != i ==> #[trigger] after.nodes@[o] == before.nodes@[o]
        },
{
    super::lookup::lemma_own_node(before.nodes@, i);
}

/// A node is given to another agent unless something that was handed out to it may still run and nobody
/// took that upon themselves; then it is bound to that agent, which no agent in particular has reported
/// from yet, and the rest stays. A node that is not known is not given.
pub proof fn law_nodes_are_given_away_safely(
    before: Store,
    after: Store,
    node: Seq<char>,
    agent_id: Seq<char>,
    acknowledged: bool,
    r: Result<(), StoreError>,
)
    requires
        before.wf(),
        binding_outcome(before, after, node, agent_id, acknowledged, r),
    ensures
        r is Err ==> after == before,
        (forall|i: int| 0 <= i < before.nodes@.len() ==> (#[trigger] before.nodes@[i]).record.name@ != node) ==> r == Err::<
            (),
            StoreError,
        >(StoreError::AttemptNotFound),
        forall|i: int|
            0 <= i < before.nodes@.len() && (#[trigger] before.nodes@[i]).record.name@ == node ==> {
                let may_run = exists|a: int, j: int|
                    0 <= a < before.attempts@.len() && 0 <= j < before.runs@.len() && (#[trigger] before.attempts@[a]).record.run_id@
                        == (#[trigger] before.runs@[j]).record.id@ && before.runs@[j].record.owner_node@ == node && (
                    before.runs@[j].record.state == RunState::Pending || before.runs@[j].record.state == RunState::Running)
                        && before.attempts@[a].dispatch_count > 0 && (before.attempts@[a].record.state == AttemptState::Queued
                        || before.attempts@[a].record.state == AttemptState::Accepted || before.attempts@[a].record.state
                        == AttemptState::Running);
                &&& r is Ok <==> !may_run || acknowledged
                &&& r is Err ==> r->Err_0 == StoreError::BindingReplacementUnsafe
                &&& r is Ok ==> after.nodes@[i].record.bound_agent_id is Some && after.nodes@[i].record.bound_agent_id->0@
                    == agent_id && after.nodes@[i].record.agent_instance_id is None && after.nodes@[i].record.agent_boot_id is None
                    && after.nodes@[i].record.active_runs == before.nodes@[i].record.active_runs
                    && after.nodes@[i].record.max_concurrent_runs == before.nodes@[i].record.max_concurrent_runs
                    && after.nodes@[i].record.last_seen_at_ms == before.nodes@[i].record.last_seen_at_ms
                    && after.nodes@[i].record.name == before.nodes@[i].record.name && after.nodes@[i].mirror_root
                    == before.nodes@[i].mirror_root
                &&& r is Ok ==> after.nodes@.len() == before.nodes@.len()
                &&& r is Ok ==> forall|o: int|
                    0 <= o < before.nodes@.len() && o != i ==> #[trigger] after.nodes@[o] == before.nodes@[o]
            },
{
    tables::lemma_node_index(before.nodes@, node);
    assert forall|i: int|
        0 <= i < before.nodes@.len() && (#[trigger] before.nodes@[i]).record.name@ == node implies tables::node_index(
        before.nodes@,
        node,
    ) == Some(i) by {
        super::lookup::lemma_own_node(before.nodes@, i);
    }
    if node_may_execute(before, node) {
        let a = choose|a: int| 0 <= a < before.attempts@.len() && #[trigger] may_execute(before, node, a);
        let j = choose|j: int|
            0 <= j < before.runs@.len() && (#[trigger] before.runs@[j]).record.id@ == before.attempts@[a].record.run_id@
                && before.runs@[j].record.owner_node@ == node && is_active(before.runs@[j]);
        assert(before.attempts@[a].record.run_id@ == before.runs@[j].record.id@);
    } else {
        assert forall|a: int, j: int|
            0 <= a < before.attempts@.len() && 0 <= j < before.runs@.len() && (#[trigger] before.attempts@[a]).record.run_id@
                == (#[trigger] before.runs@[j]).record.id@ && before.runs@[j].record.owner_node@ == node && is_active(
                before.runs@[j],
            ) && before.attempts@[a].dispatch_count > 0 implies before.attempts@[a].record.state.terminal() by {
            assert(!may_execute(before, node, a));
        }
    }
}

} // verus!
