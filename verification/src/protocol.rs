//! The messages between operators, server and agents.
use crate::domain::config::BundleFile;
use crate::domain::schedule::RunTrigger;
use crate::domain::state::AttemptState;
use crate::domain::state::FailureKind;
use crate::domain::state::ProcessRunSpec;
use crate::domain::state::RunState;
use vstd::prelude::*;

verus! {

/// The version of the protocol.
pub const PROTOCOL_VERSION: &'static str = "v1alpha1";

/// The capability of an agent to exchange a published directory at once.
pub const ATOMIC_EXCHANGE_V1: &'static str = "atomic_exchange_v1";

/// The capability of an agent to read the identity of what it executes.
pub const EXECUTION_IDENTITY_V1: &'static str = "execution_identity_v1";

/// What a detail of an error holds.
#[derive(Debug, PartialEq, Eq)]
pub enum DetailValue {
    Number(u64),
    Text(String),
}

/// Which mirror an attempt is one of.
#[derive(Debug, PartialEq, Eq)]
pub struct ExecutionIdentity {
    pub mirror: String,
}

/// An error as the API answers it.
#[derive(Debug, PartialEq, Eq)]
pub struct ApiErrorEnvelope {
    pub error: ApiError,
}

/// Code, message and details of an error.
#[derive(Debug, PartialEq, Eq)]
pub struct ApiError {
    pub code: String,
    pub message: String,
    pub details: Vec<(String, DetailValue)>,
}

/// What is known of a backup.
#[derive(Debug, PartialEq, Eq)]
pub struct BackupManifest {
    pub id: String,
    pub created_at: String,
    pub lmt_version: String,
    pub schema_version: u32,
    pub config_revision: u64,
    pub database_size: u64,
    pub sha256: String,
}

/// The backups.
#[derive(Debug, PartialEq, Eq)]
pub struct BackupListResponse {
    pub backups: Vec<BackupManifest>,
}

/// A backup that was verified.
#[derive(Debug, PartialEq, Eq)]
pub struct BackupVerifyResponse {
    pub backup: BackupManifest,
    pub valid: bool,
}

/// How the control plane stands.
#[derive(Debug, PartialEq, Eq)]
pub struct StatusResponse {
    pub version: String,
    pub schema_version: u32,
    pub config_revision: u64,
    pub runs_pending: u64,
    pub runs_running: u64,
    pub mirrors_due: u64,
    pub run_logs_stored_bytes: u64,
    pub mirrors: Vec<MirrorStatusView>,
    pub nodes: Vec<NodeStatusView>,
}

/// How a mirror stands.
#[derive(Debug, PartialEq, Eq)]
pub struct MirrorStatusView {
    pub name: String,
    pub node: String,
    pub enabled: bool,
    pub current_run_state: Option<RunState>,
    pub current_run_created_at_ms: Option<i64>,
    pub last_run_state: Option<RunState>,
    pub last_terminal_at_ms: Option<i64>,
    pub last_success_at_ms: Option<i64>,
    pub next_due_at_ms: Option<i64>,
    pub due_since_ms: Option<i64>,
}

/// How a node stands.
#[derive(Debug, PartialEq, Eq)]
pub struct NodeStatusView {
    pub name: String,
    pub online: bool,
    pub bound: bool,
    pub last_seen_at_ms: Option<i64>,
    pub active_runs: u32,
    pub max_concurrent_runs: u32,
    pub mirror_root_free_bytes: Option<u64>,
    pub atomic_publication_capable: Option<bool>,
    pub publication_health: Option<PublicationHealth>,
}

/// How a check came out.
#[derive(Clone, Copy, Debug, PartialEq, Eq, Structural)]
pub enum DoctorCheckStatus {
    Healthy,
    Warning,
    Critical,
}

/// A check and how it came out.
#[derive(Debug, PartialEq, Eq)]
pub struct DoctorCheck {
    pub id: String,
    pub status: DoctorCheckStatus,
    pub message: String,
}

/// All checks.
#[derive(Debug, PartialEq, Eq)]
pub struct DoctorResponse {
    pub healthy: bool,
    pub checks: Vec<DoctorCheck>,
}

/// The files of a configuration.
#[derive(Debug, PartialEq, Eq)]
pub struct BundleRequest {
    pub files: Vec<BundleFile>,
}

/// Whether a configuration is valid.
#[derive(Debug, PartialEq, Eq)]
pub struct ValidationResponse {
    pub valid: bool,
    pub bundle_hash: Option<String>,
    pub errors: Vec<String>,
}

/// What happens to a mirror.
#[derive(Clone, Copy, Debug, PartialEq, Eq, Structural)]
pub enum ChangeAction {
    Create,
    Update,
    Remove,
    Move,
}

/// How the publication of a mirror changes.
#[derive(Clone, Copy, Debug, PartialEq, Eq, Structural)]
pub enum PublicationChange {
    DirectToAtomic,
    AtomicToDirect,
}

/// What a configuration changes of a mirror.
#[derive(Debug, PartialEq, Eq)]
pub struct ConfigChange {
    pub action: ChangeAction,
    pub mirror: String,
    pub from_generation: Option<u64>,
    pub to_generation: Option<u64>,
    pub from_node: Option<String>,
    pub to_node: Option<String>,
    pub publication_change: Option<PublicationChange>,
}

/// What a configuration would change.
#[derive(Debug, PartialEq, Eq)]
pub struct PlanResponse {
    pub base_revision: u64,
    pub bundle_hash: String,
    pub changes: Vec<ConfigChange>,
}

/// A configuration to put in force.
#[derive(Debug, PartialEq, Eq)]
pub struct ApplyRequest {
    pub files: Vec<BundleFile>,
    pub base_revision: u64,
    pub acknowledge_moves: bool,
}

/// What a configuration has changed.
#[derive(Debug, PartialEq, Eq)]
pub struct ApplyResponse {
    pub revision: u64,
    pub bundle_hash: String,
    pub changes: Vec<ConfigChange>,
}

/// A request for a run.
#[derive(Debug, PartialEq, Eq)]
pub struct ManualRunRequest {
    pub request_id: String,
    pub trigger: RunTrigger,
}

/// A run as the API shows it.
#[derive(Debug, PartialEq, Eq)]
pub struct RunView {
    pub id: String,
    pub mirror_name: String,
    pub mirror_generation: u64,
    pub owner_node: String,
    pub trigger: RunTrigger,
    pub state: RunState,
    pub created_at: String,
    pub started_at: Option<String>,
    pub finished_at: Option<String>,
    pub final_exit_code: Option<i32>,
    pub failure_kind: Option<String>,
    pub failure_message: Option<String>,
    pub scheduled_for_at: Option<String>,
    pub retry_due_at: Option<String>,
    pub cancel_requested_at: Option<String>,
}

/// An attempt as the API shows it.
#[derive(Debug, PartialEq, Eq)]
pub struct AttemptView {
    pub run_id: String,
    pub attempt_no: u32,
    pub state: AttemptState,
    pub spec_hash: String,
    pub created_at: String,
    pub accepted_at: Option<String>,
    pub started_at: Option<String>,
    pub finished_at: Option<String>,
    pub exit_code: Option<i32>,
    pub failure_kind: Option<String>,
    pub failure_message: Option<String>,
    pub last_event_sequence: u64,
}

/// A run with its attempts.
#[derive(Debug, PartialEq, Eq)]
pub struct RunDetail {
    pub run: RunView,
    pub attempts: Vec<AttemptView>,
}

/// A mirror as the API shows it.
#[derive(Debug, PartialEq, Eq)]
pub struct MirrorView {
    pub name: String,
    pub managed: bool,
    pub enabled: bool,
    pub owner_node: String,
    pub current_generation: u64,
    pub next_due_at: Option<String>,
    pub scheduled_due_since: Option<String>,
}

/// A node as the API shows it.
#[derive(Debug, PartialEq, Eq)]
pub struct NodeView {
    pub name: String,
    pub agent_version: Option<String>,
    pub agent_instance_id: Option<String>,
    pub bound_agent_id: Option<String>,
    pub agent_boot_id: Option<String>,
    pub last_seen_at: Option<String>,
    pub active_runs: u32,
    pub mirror_root_free_bytes: Option<u64>,
    pub max_concurrent_runs: u32,
    pub online: bool,
}

/// A request to bind another agent.
#[derive(Debug, PartialEq, Eq)]
pub struct BindingReplaceRequest {
    pub agent_id: String,
    pub acknowledge_execution_risk: bool,
}

/// A request for a credential.
#[derive(Debug, PartialEq, Eq)]
pub struct CredentialIssueRequest {
    pub label: Option<String>,
}

/// A credential as the API shows it.
#[derive(Debug, PartialEq, Eq)]
pub struct CredentialView {
    pub id: String,
    pub node: String,
    pub label: Option<String>,
    pub created_at: String,
    pub last_used_at: Option<String>,
    pub revoked_at: Option<String>,
}

/// A new credential with its token.
#[derive(Debug, PartialEq, Eq)]
pub struct CredentialIssueResponse {
    pub credential: CredentialView,
    pub token: String,
}

/// A log that is to expire.
#[derive(Debug, PartialEq, Eq)]
pub struct LogExpirationView {
    pub run_id: String,
    pub attempt: u32,
    pub stored_bytes: u64,
}

/// Which logs are to expire.
#[derive(Debug, PartialEq, Eq)]
pub struct LogMaintenancePlan {
    pub stored_bytes: u64,
    pub expire_bytes: u64,
    pub candidates: Vec<LogExpirationView>,
}

/// What room an agent has.
#[derive(Clone, Copy, Debug, PartialEq, Eq, Structural)]
pub struct Capacity {
    pub mirror_root_free_bytes: Option<u64>,
    pub active_runs: u32,
    pub max_concurrent_runs: u32,
}

/// Why an agent takes no atomic work.
#[derive(Clone, Copy, Debug, PartialEq, Eq, Structural)]
pub enum PublicationAdmissionBlockReason {
    Fence,
    Recovery,
    GenerationBound,
    FreeSpaceReserve,
    GcFailure,
    InvalidLocalState,
}

/// How publication stands on an agent; the totals count since its boot.
#[derive(Clone, Copy, Debug, PartialEq, Eq, Structural)]
pub struct PublicationHealth {
    pub commits_succeeded_total: u64,
    pub commits_failed_total: u64,
    pub visibility_to_durability_milliseconds_total: u64,
    pub visibility_to_durability_samples_total: u64,
    pub preflight_rejections_total: u64,
    pub gc_failures_total: u64,
    pub publication_root_free_bytes: Option<u64>,
    pub gc_backlog_generations: u32,
    pub admission_block_reason: Option<PublicationAdmissionBlockReason>,
    pub fenced_records: u32,
    pub recovery_records: u32,
    pub degraded: bool,
}

/// An attempt that an agent holds.
#[derive(Debug, PartialEq, Eq)]
pub struct OwnedAttempt {
    pub run_id: String,
    pub attempt: u32,
    pub state: AttemptState,
}

/// What an agent reports when it asks for work.
#[derive(Debug, PartialEq, Eq)]
pub struct PollRequest {
    pub protocol_version: String,
    pub agent_version: String,
    pub agent_instance_id: String,
    pub agent_boot_id: String,
    pub poll_sequence: u64,
    pub running: Vec<OwnedAttempt>,
    pub capacity: Capacity,
    pub mirror_root: String,
    pub capabilities: Vec<String>,
    pub publication_root: Option<String>,
    pub publication_health: Option<PublicationHealth>,
}

/// What an agent is told to do.
#[derive(Debug, PartialEq, Eq)]
pub enum AgentAction {
    StartAttempt {
        run_id: String,
        attempt: u32,
        spec_hash: String,
        execution_identity: Option<ExecutionIdentity>,
        spec: ProcessRunSpec,
    },
    CancelAttempt {
        run_id: String,
        attempt: u32,
        spec_hash: String,
    },
}

/// What an agent is told to do.
#[derive(Debug, PartialEq, Eq)]
pub struct PollResponse {
    pub actions: Vec<AgentAction>,
}

/// What an agent reports of an attempt.
#[derive(Debug, PartialEq, Eq)]
pub struct EventRequest {
    pub event_sequence: u64,
    pub state: AttemptState,
    pub agent_instance_id: String,
    pub accepted_at: Option<String>,
    pub started_at: Option<String>,
    pub finished_at: Option<String>,
    pub exit_code: Option<i32>,
    pub failure_kind: Option<FailureKind>,
    pub failure_message: Option<String>,
}

/// The last event that was taken.
#[derive(Clone, Copy, Debug, PartialEq, Eq, Structural)]
pub struct EventResponse {
    pub accepted_event_sequence: u64,
}

/// Whether the server lives.
#[derive(Debug, PartialEq, Eq)]
pub struct HealthResponse {
    pub status: String,
}

} // verus!
