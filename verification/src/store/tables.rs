//! The rows of the control plane, how they are found, and what always holds of them.
use crate::domain::config::PublicationMode;
use crate::domain::schedule::RunTrigger;
use crate::domain::schedule::ScheduleRuntime;
use crate::domain::state::AttemptState;
use crate::domain::state::RunState;
use crate::text;
use vstd::prelude::*;

verus! {

/// Why an operation on the tables is refused.
#[derive(Debug, PartialEq, Eq)]
pub enum StoreError {
    Database(String),
    Worker(String),
    FutureSchema { found: u32, supported: u32 },
    InvalidConfig(String),
    RevisionConflict { current: u64 },
    MirrorNotFound,
    MirrorIneligible,
    MirrorBusy { run_id: String },
    RequestConflict,
    AttemptNotFound,
    AgentBindingConflict { bound_agent_id: String, presented_agent_id: String },
    BindingReplacementUnsafe,
    CredentialNotFound,
    IllegalTransition { from: AttemptState, to: AttemptState },
    Serialization(String),
}

/// A revision of the configuration.
#[derive(Debug, PartialEq, Eq)]
pub struct RevisionRow {
    pub revision: u64,
    pub bundle_hash: String,
    pub applied_at_ms: i64,
    pub actor: String,
    pub summary: Vec<String>,
}

/// A mirror, managed until it leaves the configuration.
#[derive(Debug, PartialEq, Eq)]
pub struct MirrorRow {
    pub name: String,
    pub managed: bool,
    pub enabled: bool,
    pub owner_node: String,
    pub current_generation: u64,
    pub removed_at_ms: Option<i64>,
}

/// The configuration of a mirror in one generation.
#[derive(Debug, PartialEq, Eq)]
pub struct GenerationRow {
    pub mirror_name: String,
    pub generation: u64,
    pub config_revision: u64,
    pub owner_node: String,
    pub config_hash: String,
    pub config_toml: String,
    pub publication: PublicationMode,
    pub created_at_ms: i64,
}

/// What the schedule of a mirror has come to.
#[derive(Debug, PartialEq, Eq)]
pub struct ScheduleRow {
    pub mirror_name: String,
    pub schedule_hash: Option<String>,
    pub runtime: ScheduleRuntime,
}

/// A run of a mirror, in one or more attempts.
#[derive(Debug, PartialEq, Eq)]
pub struct RunRecord {
    pub id: String,
    pub mirror_name: String,
    pub mirror_generation: u64,
    pub owner_node: String,
    pub trigger: RunTrigger,
    pub state: RunState,
    pub created_at_ms: i64,
    pub started_at_ms: Option<i64>,
    pub finished_at_ms: Option<i64>,
    pub final_exit_code: Option<i32>,
    pub failure_kind: Option<String>,
    pub failure_message: Option<String>,
    pub max_attempts: u32,
    pub retry_delay_ms: u64,
    pub scheduled_for_at_ms: Option<i64>,
    pub retry_due_at_ms: Option<i64>,
    pub cancel_requested_at_ms: Option<i64>,
}

impl Clone for RunRecord {
    fn clone(&self) -> (r: Self)
        ensures
            r == *self,
    {
        RunRecord {
            id: self.id.clone(),
            mirror_name: self.mirror_name.clone(),
            mirror_generation: self.mirror_generation,
            owner_node: self.owner_node.clone(),
            trigger: self.trigger,
            state: self.state,
            created_at_ms: self.created_at_ms,
            started_at_ms: self.started_at_ms,
            finished_at_ms: self.finished_at_ms,
            final_exit_code: self.final_exit_code,
            failure_kind: text::clone_opt(&self.failure_kind),
            failure_message: text::clone_opt(&self.failure_message),
            max_attempts: self.max_attempts,
            retry_delay_ms: self.retry_delay_ms,
            scheduled_for_at_ms: self.scheduled_for_at_ms,
            retry_due_at_ms: self.retry_due_at_ms,
            cancel_requested_at_ms: self.cancel_requested_at_ms,
        }
    }
}

/// A run with what only the tables know of it.
#[derive(Debug, PartialEq, Eq)]
pub struct RunRow {
    pub record: RunRecord,
    pub attempt_count: u32,
    pub manual_request_id: Option<String>,
}

/// An attempt of a run.
#[derive(Debug, PartialEq, Eq)]
pub struct AttemptRecord {
    pub run_id: String,
    pub attempt_no: u32,
    pub state: AttemptState,
    pub spec_hash: String,
    pub spec_json: String,
    pub created_at_ms: i64,
    pub accepted_at_ms: Option<i64>,
    pub started_at_ms: Option<i64>,
    pub finished_at_ms: Option<i64>,
    pub exit_code: Option<i32>,
    pub failure_kind: Option<String>,
    pub failure_message: Option<String>,
    pub last_event_sequence: u64,
}

impl Clone for AttemptRecord {
    fn clone(&self) -> (r: Self)
        ensures
            r == *self,
    {
        AttemptRecord {
            run_id: self.run_id.clone(),
            attempt_no: self.attempt_no,
            state: self.state,
            spec_hash: self.spec_hash.clone(),
            spec_json: self.spec_json.clone(),
            created_at_ms: self.created_at_ms,
            accepted_at_ms: self.accepted_at_ms,
            started_at_ms: self.started_at_ms,
            finished_at_ms: self.finished_at_ms,
            exit_code: self.exit_code,
            failure_kind: text::clone_opt(&self.failure_kind),
            failure_message: text::clone_opt(&self.failure_message),
            last_event_sequence: self.last_event_sequence,
        }
    }
}

/// An attempt with what only the tables know of it.
#[derive(Debug, PartialEq, Eq)]
pub struct AttemptRow {
    pub record: AttemptRecord,
    pub agent_instance_id: Option<String>,
    pub dispatch_count: u64,
    pub last_dispatch_at_ms: Option<i64>,
}

/// A node as its agent last reported it.
#[derive(Debug, PartialEq, Eq)]
pub struct NodeRecord {
    pub name: String,
    pub agent_version: Option<String>,
    pub agent_instance_id: Option<String>,
    pub bound_agent_id: Option<String>,
    pub agent_boot_id: Option<String>,
    pub last_seen_at_ms: Option<i64>,
    pub active_runs: u32,
    pub mirror_root_free_bytes: Option<u64>,
    pub max_concurrent_runs: u32,
}

impl Clone for NodeRecord {
    fn clone(&self) -> (r: Self)
        ensures
            r == *self,
    {
        NodeRecord {
            name: self.name.clone(),
            agent_version: text::clone_opt(&self.agent_version),
            agent_instance_id: text::clone_opt(&self.agent_instance_id),
            bound_agent_id: text::clone_opt(&self.bound_agent_id),
            agent_boot_id: text::clone_opt(&self.agent_boot_id),
            last_seen_at_ms: self.last_seen_at_ms,
            active_runs: self.active_runs,
            mirror_root_free_bytes: self.mirror_root_free_bytes,
            max_concurrent_runs: self.max_concurrent_runs,
        }
    }
}

/// A node with what only the tables know of it.
#[derive(Debug, PartialEq, Eq)]
pub struct NodeRow {
    pub record: NodeRecord,
    pub registered_at_ms: i64,
    pub mirror_root: Option<String>,
}

/// A credential of a node.
#[derive(Debug, PartialEq, Eq)]
pub struct CredentialRecord {
    pub node: String,
    pub id: String,
    pub label: Option<String>,
    pub created_at_ms: i64,
    pub last_used_at_ms: Option<i64>,
    pub revoked_at_ms: Option<i64>,
}

impl Clone for CredentialRecord {
    fn clone(&self) -> (r: Self)
        ensures
            r == *self,
    {
        CredentialRecord {
            node: self.node.clone(),
            id: self.id.clone(),
            label: text::clone_opt(&self.label),
            created_at_ms: self.created_at_ms,
            last_used_at_ms: self.last_used_at_ms,
            revoked_at_ms: self.revoked_at_ms,
        }
    }
}

/// A credential with the fingerprint of its token.
#[derive(Debug, PartialEq, Eq)]
pub struct CredentialRow {
    pub record: CredentialRecord,
    pub token_hash: String,
}

/// Where the log of an attempt is kept and how much of it.
#[derive(Debug, PartialEq, Eq)]
pub struct LogMetadata {
    pub relative_path: String,
    pub stored_bytes: u64,
    pub complete: bool,
    pub updated_at_ms: i64,
    pub expired_at_ms: Option<i64>,
}

impl Clone for LogMetadata {
    fn clone(&self) -> (r: Self)
        ensures
            r == *self,
    {
        LogMetadata {
            relative_path: self.relative_path.clone(),
            stored_bytes: self.stored_bytes,
            complete: self.complete,
            updated_at_ms: self.updated_at_ms,
            expired_at_ms: self.expired_at_ms,
        }
    }
}

/// The log of an attempt.
#[derive(Debug, PartialEq, Eq)]
pub struct LogRow {
    pub run_id: String,
    pub attempt_no: u32,
    pub metadata: LogMetadata,
}

/// The tables.
#[derive(Debug, PartialEq, Eq)]
pub struct Store {
    pub revisions: Vec<RevisionRow>,
    pub mirrors: Vec<MirrorRow>,
    pub generations: Vec<GenerationRow>,
    pub schedules: Vec<ScheduleRow>,
    pub runs: Vec<RunRow>,
    pub attempts: Vec<AttemptRow>,
    pub nodes: Vec<NodeRow>,
    pub credentials: Vec<CredentialRow>,
    pub logs: Vec<LogRow>,
}

/// The place of a mirror.
pub open spec fn mirror_index(rows: Seq<MirrorRow>, name: Seq<char>) -> Option<int>
    decreases rows.len(),
{
    if rows.len() == 0 {
        None
    } else if rows.last().name@ == name {
        Some(rows.len() - 1)
    } else {
        mirror_index(rows.drop_last(), name)
    }
}

/// The place of a generation of a mirror.
pub open spec fn generation_index(rows: Seq<GenerationRow>, name: Seq<char>, generation: u64) -> Option<int>
    decreases rows.len(),
{
    if rows.len() == 0 {
        None
    } else if rows.last().mirror_name@ == name && rows.last().generation == generation {
        Some(rows.len() - 1)
    } else {
        generation_index(rows.drop_last(), name, generation)
    }
}

/// The place of the schedule of a mirror.
pub open spec fn schedule_index(rows: Seq<ScheduleRow>, name: Seq<char>) -> Option<int>
    decreases rows.len(),
{
    if rows.len() == 0 {
        None
    } else if rows.last().mirror_name@ == name {
        Some(rows.len() - 1)
    } else {
        schedule_index(rows.drop_last(), name)
    }
}

/// The place of a run.
pub open spec fn run_index(rows: Seq<RunRow>, id: Seq<char>) -> Option<int>
    decreases rows.len(),
{
    if rows.len() == 0 {
        None
    } else if rows.last().record.id@ == id {
        Some(rows.len() - 1)
    } else {
        run_index(rows.drop_last(), id)
    }
}

/// The place of an attempt of a run.
pub open spec fn attempt_index(rows: Seq<AttemptRow>, run_id: Seq<char>, attempt_no: u32) -> Option<int>
    decreases rows.len(),
{
    if rows.len() == 0 {
        None
    } else if rows.last().record.run_id@ == run_id && rows.last().record.attempt_no == attempt_no {
        Some(rows.len() - 1)
    } else {
        attempt_index(rows.drop_last(), run_id, attempt_no)
    }
}

/// The place of a node.
pub open spec fn node_index(rows: Seq<NodeRow>, name: Seq<char>) -> Option<int>
    decreases rows.len(),
{
    if rows.len() == 0 {
        None
    } else if rows.last().record.name@ == name {
        Some(rows.len() - 1)
    } else {
        node_index(rows.drop_last(), name)
    }
}

/// The place of a credential of a node.
pub open spec fn credential_index(rows: Seq<CredentialRow>, node: Seq<char>, id: Seq<char>) -> Option<int>
    decreases rows.len(),
{
    if rows.len() == 0 {
        None
    } else if rows.last().record.node@ == node && rows.last().record.id@ == id {
        Some(rows.len() - 1)
    } else {
        credential_index(rows.drop_last(), node, id)
    }
}

/// The place of the log of an attempt.
pub open spec fn log_index(rows: Seq<LogRow>, run_id: Seq<char>, attempt_no: u32) -> Option<int>
    decreases rows.len(),
{
    if rows.len() == 0 {
        None
    } else if rows.last().run_id@ == run_id && rows.last().attempt_no == attempt_no {
        Some(rows.len() - 1)
    } else {
        log_index(rows.drop_last(), run_id, attempt_no)
    }
}

/// What a mirror's place means.
pub proof fn lemma_mirror_index(rows: Seq<MirrorRow>, name: Seq<char>)
    ensures
        match mirror_index(rows, name) {
            Some(i) => 0 <= i < rows.len() && rows[i].name@ == name,
            None => forall|i: int| 0 <= i < rows.len() ==> (#[trigger] rows[i]).name@ != name,
        },
    decreases rows.len(),
{
    if rows.len() > 0 && rows.last().name@ != name {
        lemma_mirror_index(rows.drop_last(), name);
        assert forall|i: int| 0 <= i < rows.len() && mirror_index(rows, name) is None implies (
        #[trigger] rows[i]).name@ != name by {
            if i < rows.len() - 1 {
                assert(rows.drop_last()[i] == rows[i]);
            }
        }
    }
}

/// What a generation's place means.
pub proof fn lemma_generation_index(rows: Seq<GenerationRow>, name: Seq<char>, generation: u64)
    ensures
        match generation_index(rows, name, generation) {
            Some(i) => 0 <= i < rows.len() && rows[i].mirror_name@ == name && rows[i].generation == generation,
            None => forall|i: int|
                0 <= i < rows.len() ==> !((#[trigger] rows[i]).mirror_name@ == name && rows[i].generation
                    == generation),
        },
    decreases rows.len(),
{
    if rows.len() > 0 && !(rows.last().mirror_name@ == name && rows.last().generation == generation) {
        lemma_generation_index(rows.drop_last(), name, generation);
        assert forall|i: int| 0 <= i < rows.len() && generation_index(rows, name, generation) is None implies !((
        #[trigger] rows[i]).mirror_name@ == name && rows[i].generation == generation) by {
            if i < rows.len() - 1 {
                assert(rows.drop_last()[i] == rows[i]);
            }
        }
    }
}

/// What a schedule's place means.
pub proof fn lemma_schedule_index(rows: Seq<ScheduleRow>, name: Seq<char>)
    ensures
        match schedule_index(rows, name) {
            Some(i) => 0 <= i < rows.len() && rows[i].mirror_name@ == name,
            None => forall|i: int| 0 <= i < rows.len() ==> (#[trigger] rows[i]).mirror_name@ != name,
        },
    decreases rows.len(),
{
    if rows.len() > 0 && rows.last().mirror_name@ != name {
        lemma_schedule_index(rows.drop_last(), name);
        assert forall|i: int| 0 <= i < rows.len() && schedule_index(rows, name) is None implies (
        #[trigger] rows[i]).mirror_name@ != name by {
            if i < rows.len() - 1 {
                assert(rows.drop_last()[i] == rows[i]);
            }
        }
    }
}

/// What a run's place means.
pub proof fn lemma_run_index(rows: Seq<RunRow>, id: Seq<char>)
    ensures
        match run_index(rows, id) {
            Some(i) => 0 <= i < rows.len() && rows[i].record.id@ == id,
            None => forall|i: int| 0 <= i < rows.len() ==> (#[trigger] rows[i]).record.id@ != id,
        },
    decreases rows.len(),
{
    if rows.len() > 0 && rows.last().record.id@ != id {
        lemma_run_index(rows.drop_last(), id);
        assert forall|i: int| 0 <= i < rows.len() && run_index(rows, id) is None implies (
        #[trigger] rows[i]).record.id@ != id by {
            if i < rows.len() - 1 {
                assert(rows.drop_last()[i] == rows[i]);
            }
        }
    }
}

/// What an attempt's place means.
pub proof fn lemma_attempt_index(rows: Seq<AttemptRow>, run_id: Seq<char>, attempt_no: u32)
    ensures
        match attempt_index(rows, run_id, attempt_no) {
            Some(i) => 0 <= i < rows.len() && rows[i].record.run_id@ == run_id && rows[i].record.attempt_no
                == attempt_no,
            None => forall|i: int|
                0 <= i < rows.len() ==> !((#[trigger] rows[i]).record.run_id@ == run_id && rows[i].record.attempt_no
                    == attempt_no),
        },
    decreases rows.len(),
{
    if rows.len() > 0 && !(rows.last().record.run_id@ == run_id && rows.last().record.attempt_no == attempt_no) {
        lemma_attempt_index(rows.drop_last(), run_id, attempt_no);
        assert forall|i: int| 0 <= i < rows.len() && attempt_index(rows, run_id, attempt_no) is None implies !((
        #[trigger] rows[i]).record.run_id@ == run_id && rows[i].record.attempt_no == attempt_no) by {
            if i < rows.len() - 1 {
                assert(rows.drop_last()[i] == rows[i]);
            }
        }
    }
}

/// What a node's place means.
pub proof fn lemma_node_index(rows: Seq<NodeRow>, name: Seq<char>)
    ensures
        match node_index(rows, name) {
            Some(i) => 0 <= i < rows.len() && rows[i].record.name@ == name,
            None => forall|i: int| 0 <= i < rows.len() ==> (#[trigger] rows[i]).record.name@ != name,
        },
    decreases rows.len(),
{
    if rows.len() > 0 && rows.last().record.name@ != name {
        lemma_node_index(rows.drop_last(), name);
        assert forall|i: int| 0 <= i < rows.len() && node_index(rows, name) is None implies (
        #[trigger] rows[i]).record.name@ != name by {
            if i < rows.len() - 1 {
                assert(rows.drop_last()[i] == rows[i]);
            }
        }
    }
}

/// What a credential's place means.
pub proof fn lemma_credential_index(rows: Seq<CredentialRow>, node: Seq<char>, id: Seq<char>)
    ensures
        match credential_index(rows, node, id) {
            Some(i) => 0 <= i < rows.len() && rows[i].record.node@ == node && rows[i].record.id@ == id,
            None => forall|i: int|
                0 <= i < rows.len() ==> !((#[trigger] rows[i]).record.node@ == node && rows[i].record.id@ == id),
        },
    decreases rows.len(),
{
    if rows.len() > 0 && !(rows.last().record.node@ == node && rows.last().record.id@ == id) {
        lemma_credential_index(rows.drop_last(), node, id);
        assert forall|i: int| 0 <= i < rows.len() && credential_index(rows, node, id) is None implies !((
        #[trigger] rows[i]).record.node@ == node && rows[i].record.id@ == id) by {
            if i < rows.len() - 1 {
                assert(rows.drop_last()[i] == rows[i]);
            }
        }
    }
}

/// What a log's place means.
pub proof fn lemma_log_index(rows: Seq<LogRow>, run_id: Seq<char>, attempt_no: u32)
    ensures
        match log_index(rows, run_id, attempt_no) {
            Some(i) => 0 <= i < rows.len() && rows[i].run_id@ == run_id && rows[i].attempt_no == attempt_no,
            None => forall|i: int|
                0 <= i < rows.len() ==> !((#[trigger] rows[i]).run_id@ == run_id && rows[i].attempt_no
                    == attempt_no),
        },
    decreases rows.len(),
{
    if rows.len() > 0 && !(rows.last().run_id@ == run_id && rows.last().attempt_no == attempt_no) {
        lemma_log_index(rows.drop_last(), run_id, attempt_no);
        assert forall|i: int| 0 <= i < rows.len() && log_index(rows, run_id, attempt_no) is None implies !((
        #[trigger] rows[i]).run_id@ == run_id && rows[i].attempt_no == attempt_no) by {
            if i < rows.len() - 1 {
                assert(rows.drop_last()[i] == rows[i]);
            }
        }
    }
}

/// Finds a mirror.
pub fn find_mirror(rows: &Vec<MirrorRow>, name: &str) -> (r: Option<usize>)
    ensures
        match r {
            Some(i) => mirror_index(rows@, name@) == Some(i as int) && i < rows.len() && rows@[i as int].name@
                == name@,
            None => mirror_index(rows@, name@) is None,
        },
{
    let mut n: usize = rows.len();
    assert(rows@.take(n as int) == rows@);
    while n > 0
        invariant
            n <= rows.len(),
            mirror_index(rows@, name@) == mirror_index(rows@.take(n as int), name@),
        decreases n,
    {
        assert(rows@.take(n as int).drop_last() == rows@.take(n - 1));
        if text::same(rows[n - 1].name.as_str(), name) {
            return Some(n - 1);
        }
        n = n - 1;
    }
    None
}

/// Finds a generation of a mirror.
pub fn find_generation(rows: &Vec<GenerationRow>, name: &str, generation: u64) -> (r: Option<usize>)
    ensures
        match r {
            Some(i) => generation_index(rows@, name@, generation) == Some(i as int) && i < rows.len()
                && rows@[i as int].mirror_name@ == name@ && rows@[i as int].generation == generation,
            None => generation_index(rows@, name@, generation) is None,
        },
{
    let mut n: usize = rows.len();
    assert(rows@.take(n as int) == rows@);
    while n > 0
        invariant
            n <= rows.len(),
            generation_index(rows@, name@, generation) == generation_index(rows@.take(n as int), name@, generation),
        decreases n,
    {
        assert(rows@.take(n as int).drop_last() == rows@.take(n - 1));
        if rows[n - 1].generation == generation && text::same(rows[n - 1].mirror_name.as_str(), name) {
            return Some(n - 1);
        }
        n = n - 1;
    }
    None
}

/// Finds the schedule of a mirror.
pub fn find_schedule(rows: &Vec<ScheduleRow>, name: &str) -> (r: Option<usize>)
    ensures
        match r {
            Some(i) => schedule_index(rows@, name@) == Some(i as int) && i < rows.len()
                && rows@[i as int].mirror_name@ == name@,
            None => schedule_index(rows@, name@) is None,
        },
{
    let mut n: usize = rows.len();
    assert(rows@.take(n as int) == rows@);
    while n > 0
        invariant
            n <= rows.len(),
            schedule_index(rows@, name@) == schedule_index(rows@.take(n as int), name@),
        decreases n,
    {
        assert(rows@.take(n as int).drop_last() == rows@.take(n - 1));
        if text::same(rows[n - 1].mirror_name.as_str(), name) {
            return Some(n - 1);
        }
        n = n - 1;
    }
    None
}

/// Finds a run.
pub fn find_run(rows: &Vec<RunRow>, id: &str) -> (r: Option<usize>)
    ensures
        match r {
            Some(i) => run_index(rows@, id@) == Some(i as int) && i < rows.len() && rows@[i as int].record.id@
                == id@,
            None => run_index(rows@, id@) is None,
        },
{
    let mut n: usize = rows.len();
    assert(rows@.take(n as int) == rows@);
    while n > 0
        invariant
            n <= rows.len(),
            run_index(rows@, id@) == run_index(rows@.take(n as int), id@),
        decreases n,
    {
        assert(rows@.take(n as int).drop_last() == rows@.take(n - 1));
        if text::same(rows[n - 1].record.id.as_str(), id) {
            return Some(n - 1);
        }
        n = n - 1;
    }
    None
}

/// Finds an attempt of a run.
pub fn find_attempt(rows: &Vec<AttemptRow>, run_id: &str, attempt_no: u32) -> (r: Option<usize>)
    ensures
        match r {
            Some(i) => attempt_index(rows@, run_id@, attempt_no) == Some(i as int) && i < rows.len()
                && rows@[i as int].record.run_id@ == run_id@ && rows@[i as int].record.attempt_no == attempt_no,
            None => attempt_index(rows@, run_id@, attempt_no) is None,
        },
{
    let mut n: usize = rows.len();
    assert(rows@.take(n as int) == rows@);
    while n > 0
        invariant
            n <= rows.len(),
            attempt_index(rows@, run_id@, attempt_no) == attempt_index(rows@.take(n as int), run_id@, attempt_no),
        decreases n,
    {
        assert(rows@.take(n as int).drop_last() == rows@.take(n - 1));
        if rows[n - 1].record.attempt_no == attempt_no && text::same(rows[n - 1].record.run_id.as_str(), run_id) {
            return Some(n - 1);
        }
        n = n - 1;
    }
    None
}

/// Finds a node.
pub fn find_node(rows: &Vec<NodeRow>, name: &str) -> (r: Option<usize>)
    ensures
        match r {
            Some(i) => node_index(rows@, name@) == Some(i as int) && i < rows.len() && rows@[i as int].record.name@
                == name@,
            None => node_index(rows@, name@) is None,
        },
{
    let mut n: usize = rows.len();
    assert(rows@.take(n as int) == rows@);
    while n > 0
        invariant
            n <= rows.len(),
            node_index(rows@, name@) == node_index(rows@.take(n as int), name@),
        decreases n,
    {
        assert(rows@.take(n as int).drop_last() == rows@.take(n - 1));
        if text::same(rows[n - 1].record.name.as_str(), name) {
            return Some(n - 1);
        }
        n = n - 1;
    }
    None
}

/// Finds a credential of a node.
pub fn find_credential(rows: &Vec<CredentialRow>, node: &str, id: &str) -> (r: Option<usize>)
    ensures
        match r {
            Some(i) => credential_index(rows@, node@, id@) == Some(i as int) && i < rows.len()
                && rows@[i as int].record.node@ == node@ && rows@[i as int].record.id@ == id@,
            None => credential_index(rows@, node@, id@) is None,
        },
{
    let mut n: usize = rows.len();
    assert(rows@.take(n as int) == rows@);
    while n > 0
        invariant
            n <= rows.len(),
            credential_index(rows@, node@, id@) == credential_index(rows@.take(n as int), node@, id@),
        decreases n,
    {
        assert(rows@.take(n as int).drop_last() == rows@.take(n - 1));
        if text::same(rows[n - 1].record.id.as_str(), id) && text::same(rows[n - 1].record.node.as_str(), node) {
            return Some(n - 1);
        }
        n = n - 1;
    }
    None
}

/// Finds the log of an attempt.
pub fn find_log(rows: &Vec<LogRow>, run_id: &str, attempt_no: u32) -> (r: Option<usize>)
    ensures
        match r {
            Some(i) => log_index(rows@, run_id@, attempt_no) == Some(i as int) && i < rows.len()
                && rows@[i as int].run_id@ == run_id@ && rows@[i as int].attempt_no == attempt_no,
            None => log_index(rows@, run_id@, attempt_no) is None,
        },
{
    let mut n: usize = rows.len();
    assert(rows@.take(n as int) == rows@);
    while n > 0
        invariant
            n <= rows.len(),
            log_index(rows@, run_id@, attempt_no) == log_index(rows@.take(n as int), run_id@, attempt_no),
        decreases n,
    {
        assert(rows@.take(n as int).drop_last() == rows@.take(n - 1));
        if rows[n - 1].attempt_no == attempt_no && text::same(rows[n - 1].run_id.as_str(), run_id) {
            return Some(n - 1);
        }
        n = n - 1;
    }
    None
}

/// True of a run that has not ended.
pub open spec fn is_active(run: RunRow) -> bool {
    !run.record.state.terminal()
}

/// True when one of the runs of a mirror has not ended.
pub open spec fn has_active_run(runs: Seq<RunRow>, mirror: Seq<char>) -> bool {
    exists|i: int| 0 <= i < runs.len() && (#[trigger] runs[i]).record.mirror_name@ == mirror && is_active(runs[i])
}

/// True when a run has an attempt.
pub open spec fn has_attempt(attempts: Seq<AttemptRow>, run_id: Seq<char>) -> bool {
    exists|i: int| 0 <= i < attempts.len() && (#[trigger] attempts[i]).record.run_id@ == run_id
}

/// Finds a run of a mirror that has not ended.
pub fn find_active_run(runs: &Vec<RunRow>, mirror: &str) -> (r: Option<usize>)
    ensures
        match r {
            Some(i) => i < runs.len() && runs@[i as int].record.mirror_name@ == mirror@ && is_active(runs@[i as int]),
            None => !has_active_run(runs@, mirror@),
        },
{
    let mut i: usize = 0;
    while i < runs.len()
        invariant
            i <= runs.len(),
            forall|k: int|
                0 <= k < i ==> !((#[trigger] runs@[k]).record.mirror_name@ == mirror@ && is_active(runs@[k])),
        decreases runs.len() - i,
    {
        if !runs[i].record.state.is_terminal() && text::same(runs[i].record.mirror_name.as_str(), mirror) {
            return Some(i);
        }
        i = i + 1;
    }
    None
}

} // verus!
