//! How requests fail.
use crate::domain::state::AttemptState;
use crate::protocol::DetailValue;
use crate::store::tables::StoreError;
use crate::text;
use vstd::prelude::*;

verus! {

/// Why a request fails: an HTTP status, a code, a message and details.
#[derive(Debug, PartialEq, Eq)]
pub struct Failure {
    pub status: u16,
    pub code: &'static str,
    pub message: String,
    pub details: Vec<(String, DetailValue)>,
}

/// What a detail holds.
pub enum DetailView {
    Number(u64),
    Text(Seq<char>),
}

/// What a failure holds.
pub struct FailureView {
    pub status: u16,
    pub code: Seq<char>,
    pub message: Seq<char>,
    pub details: Seq<(Seq<char>, DetailView)>,
}

impl DetailValue {
    /// What the detail holds.
    pub open spec fn view(&self) -> DetailView {
        match *self {
            DetailValue::Number(value) => DetailView::Number(value),
            DetailValue::Text(value) => DetailView::Text(value@),
        }
    }
}

/// A failure without details.
pub open spec fn failure(status: u16, code: Seq<char>, message: Seq<char>) -> FailureView {
    FailureView { status, code, message, details: Seq::empty() }
}

/// The word for a state in messages.
pub open spec fn state_name(state: AttemptState) -> Seq<char> {
    match state {
        AttemptState::Queued => "Queued"@,
        AttemptState::Accepted => "Accepted"@,
        AttemptState::Running => "Running"@,
        AttemptState::Succeeded => "Succeeded"@,
        AttemptState::Failed => "Failed"@,
        AttemptState::TimedOut => "TimedOut"@,
        AttemptState::Cancelled => "Cancelled"@,
        AttemptState::Interrupted => "Interrupted"@,
        AttemptState::Rejected => "Rejected"@,
    }
}

fn name_of_state(state: AttemptState) -> (r: &'static str)
    ensures
        r@ == state_name(state),
{
    match state {
        AttemptState::Queued => "Queued",
        AttemptState::Accepted => "Accepted",
        AttemptState::Running => "Running",
        AttemptState::Succeeded => "Succeeded",
        AttemptState::Failed => "Failed",
        AttemptState::TimedOut => "TimedOut",
        AttemptState::Cancelled => "Cancelled",
        AttemptState::Interrupted => "Interrupted",
        AttemptState::Rejected => "Rejected",
    }
}

/// The message for a refused operation on the tables.
pub open spec fn store_message(error: StoreError) -> Seq<char> {
    match error {
        StoreError::Database(message) => "database error: "@ + message@,
        StoreError::Worker(message) => "database worker unavailable: "@ + message@,
        StoreError::FutureSchema { found, supported } => "database schema version "@ + text::decimal(found as nat)
            + " is newer than supported version "@ + text::decimal(supported as nat),
        StoreError::InvalidConfig(message) => "configuration is invalid: "@ + message@,
        StoreError::RevisionConflict { current } => "configuration revision conflict: current revision is "@
            + text::decimal(current as nat),
        StoreError::MirrorNotFound => "mirror not found"@,
        StoreError::MirrorIneligible => "mirror is not managed or enabled"@,
        StoreError::MirrorBusy { run_id } => "mirror already has active run "@ + run_id@,
        StoreError::RequestConflict => "request id was already used for another mirror"@,
        StoreError::AttemptNotFound => "run or attempt not found"@,
        StoreError::AgentBindingConflict { bound_agent_id, presented_agent_id } =>
            "Agent binding conflict: Node is bound to "@ + bound_agent_id@ + ", presented "@ + presented_agent_id@,
        StoreError::BindingReplacementUnsafe => "Node binding replacement may overlap dispatched work"@,
        StoreError::CredentialNotFound => "credential not found"@,
        StoreError::IllegalTransition { from, to } => "illegal state transition from "@ + state_name(from) + " to "@
            + state_name(to),
        StoreError::Serialization(message) => "spec serialization failed: "@ + message@,
    }
}

impl StoreError {
    /// The message for a reader.
    pub fn message(&self) -> (r: String)
        ensures
            r@ == store_message(*self),
    {
        match self {
            StoreError::Database(message) => text::join2("database error: ", message.as_str()),
            StoreError::Worker(message) => text::join2("database worker unavailable: ", message.as_str()),
            StoreError::FutureSchema { found, supported } => text::join4(
                "database schema version ",
                text::decimal_text(*found as u64).as_str(),
                " is newer than supported version ",
                text::decimal_text(*supported as u64).as_str(),
            ),
            StoreError::InvalidConfig(message) => text::join2("configuration is invalid: ", message.as_str()),
            StoreError::RevisionConflict { current } => text::join2(
                "configuration revision conflict: current revision is ",
                text::decimal_text(*current).as_str(),
            ),
            StoreError::MirrorNotFound => "mirror not found".to_owned(),
            StoreError::MirrorIneligible => "mirror is not managed or enabled".to_owned(),
            StoreError::MirrorBusy { run_id } => text::join2("mirror already has active run ", run_id.as_str()),
            StoreError::RequestConflict => "request id was already used for another mirror".to_owned(),
            StoreError::AttemptNotFound => "run or attempt not found".to_owned(),
            StoreError::AgentBindingConflict { bound_agent_id, presented_agent_id } => text::join4(
                "Agent binding conflict: Node is bound to ",
                bound_agent_id.as_str(),
                ", presented ",
                presented_agent_id.as_str(),
            ),
            StoreError::BindingReplacementUnsafe => "Node binding replacement may overlap dispatched work".to_owned(),
            StoreError::CredentialNotFound => "credential not found".to_owned(),
            StoreError::IllegalTransition { from, to } => text::join4(
                "illegal state transition from ",
                name_of_state(*from),
                " to ",
                name_of_state(*to),
            ),
            StoreError::Serialization(message) => text::join2("spec serialization failed: ", message.as_str()),
        }
    }
}

/// How a request fails whose operation on the tables is refused. What an operator cannot mend is not
/// told.
pub open spec fn store_failure(error: StoreError) -> FailureView {
    match error {
        StoreError::RevisionConflict { current } => FailureView {
            details: seq![("current_revision"@, DetailView::Number(current))],
            ..failure(409, "config_revision_conflict"@, store_message(error))
        },
        StoreError::MirrorBusy { run_id } => FailureView {
            details: seq![("run_id"@, DetailView::Text(run_id@))],
            ..failure(409, "mirror_busy"@, store_message(error))
        },
        StoreError::MirrorNotFound => failure(404, "mirror_not_found"@, "not found"@),
        StoreError::MirrorIneligible => failure(409, "mirror_ineligible"@, store_message(error)),
        StoreError::AgentBindingConflict { bound_agent_id, presented_agent_id } => FailureView {
            details: seq![
                ("bound_agent_id"@, DetailView::Text(bound_agent_id@)),
                ("presented_agent_id"@, DetailView::Text(presented_agent_id@)),
            ],
            ..failure(409, "agent_binding_conflict"@, "Node is bound to another Agent installation"@)
        },
        StoreError::BindingReplacementUnsafe => failure(409, "binding_replacement_unsafe"@, store_message(error)),
        StoreError::CredentialNotFound => failure(404, "credential_not_found"@, "not found"@),
        StoreError::AttemptNotFound => failure(404, "attempt_not_found"@, "not found"@),
        StoreError::RequestConflict | StoreError::IllegalTransition { .. } => failure(
            409,
            "state_conflict"@,
            store_message(error),
        ),
        StoreError::InvalidConfig(_) => failure(400, "config_invalid"@, store_message(error)),
        StoreError::Database(_) | StoreError::Worker(_) | StoreError::FutureSchema { .. }
        | StoreError::Serialization(_) => failure(500, "internal"@, "internal server error"@),
    }
}

impl Failure {
    /// What the failure holds.
    pub open spec fn view(&self) -> FailureView {
        FailureView {
            status: self.status,
            code: self.code@,
            message: self.message@,
            details: self.details@.map_values(|detail: (String, DetailValue)| (detail.0@, detail.1@)),
        }
    }

    /// A failure without details.
    pub fn new(status: u16, code: &'static str, message: &str) -> (r: Failure)
        ensures
            r@ == failure(status, code@, message@),
    {
        let r: Failure = Failure { status, code, message: message.to_owned(), details: Vec::new() };
        assert(r@.details =~= Seq::empty());
        r
    }

    /// A bad request.
    pub fn bad(code: &'static str, message: &str) -> (r: Failure)
        ensures
            r@ == failure(400, code@, message@),
    {
        Failure::new(400, code, message)
    }

    /// A conflict.
    pub fn conflict(code: &'static str, message: &str) -> (r: Failure)
        ensures
            r@ == failure(409, code@, message@),
    {
        Failure::new(409, code, message)
    }

    /// Something that is not there.
    pub fn not_found(code: &'static str) -> (r: Failure)
        ensures
            r@ == failure(404, code@, "not found"@),
    {
        Failure::new(404, code, "not found")
    }

    /// Something that is no longer there.
    pub fn gone(code: &'static str, message: &str) -> (r: Failure)
        ensures
            r@ == failure(410, code@, message@),
    {
        Failure::new(410, code, message)
    }

    /// A request without a valid token.
    pub fn unauthorized() -> (r: Failure)
        ensures
            r@ == failure(401, "unauthorized"@, "valid bearer token required"@),
    {
        Failure::new(401, "unauthorized", "valid bearer token required")
    }

    /// A log that cannot be read or written.
    pub fn io(message: &str) -> (r: Failure)
        ensures
            r@ == failure(500, "log_io_error"@, message@),
    {
        Failure::new(500, "log_io_error", message)
    }

    /// How a request fails whose operation on the tables is refused.
    pub fn of_store(error: StoreError) -> (r: Failure)
        ensures
            r@ == store_failure(error),
    {
        let message: String = error.message();
        match error {
            StoreError::RevisionConflict { current } => {
                let mut r: Failure = Failure::conflict("config_revision_conflict", message.as_str());
                r.details = vec![("current_revision".to_owned(), DetailValue::Number(current))];
                assert(r@.details =~= store_failure(error).details);
                r
            },
            StoreError::MirrorBusy { run_id } => {
                let mut r: Failure = Failure::conflict("mirror_busy", message.as_str());
                r.details = vec![("run_id".to_owned(), DetailValue::Text(run_id))];
                assert(r@.details =~= store_failure(error).details);
                r
            },
            StoreError::MirrorNotFound => Failure::not_found("mirror_not_found"),
            StoreError::MirrorIneligible => Failure::conflict("mirror_ineligible", message.as_str()),
            StoreError::AgentBindingConflict { bound_agent_id, presented_agent_id } => {
                let mut r: Failure = Failure::conflict(
                    "agent_binding_conflict",
                    "Node is bound to another Agent installation",
                );
                r.details = vec![
                    ("bound_agent_id".to_owned(), DetailValue::Text(bound_agent_id)),
                    ("presented_agent_id".to_owned(), DetailValue::Text(presented_agent_id)),
                ];
                assert(r@.details =~= store_failure(error).details);
                r
            },
            StoreError::BindingReplacementUnsafe => Failure::conflict("binding_replacement_unsafe", message.as_str()),
            StoreError::CredentialNotFound => Failure::not_found("credential_not_found"),
            StoreError::AttemptNotFound => Failure::not_found("attempt_not_found"),
            StoreError::RequestConflict | StoreError::IllegalTransition { .. } => Failure::conflict(
                "state_conflict",
                message.as_str(),
            ),
            StoreError::InvalidConfig(_) => Failure::bad("config_invalid", message.as_str()),
            StoreError::Database(_) | StoreError::Worker(_) | StoreError::FutureSchema { .. }
            | StoreError::Serialization(_) => Failure::new(500, "internal", "internal server error"),
        }
    }
}

/// What goes wrong inside the server is not told to its clients.
pub proof fn law_internal_errors_are_not_told(error: StoreError)
    requires
        error is Database || error is Worker || error is FutureSchema || error is Serialization,
    ensures
        store_failure(error) == failure(500, "internal"@, "internal server error"@),
{
}

/// What a request is answered where the store refuses: what is not there is not found, what stands in
/// the way is a conflict, what cannot be read is the request's fault, and everything else is the
/// server's.
pub proof fn law_refusals_are_answered_by_their_kind(error: StoreError)
    ensures
        store_failure(error).status == 404 <==> error is MirrorNotFound || error is CredentialNotFound || error is AttemptNotFound,
        store_failure(error).status == 409 <==> error is RevisionConflict || error is MirrorBusy || error is MirrorIneligible
            || error is AgentBindingConflict || error is BindingReplacementUnsafe || error is RequestConflict
            || error is IllegalTransition,
        store_failure(error).status == 400 <==> error is InvalidConfig,
        store_failure(error).status == 500 <==> error is Database || error is Worker || error is FutureSchema
            || error is Serialization,
{
}

/// What a conflict is about is told with it: the revision that is in force, the run that is in the way,
/// the agent that the node is bound to and the one that came. Nothing else is told beside a message.
pub proof fn law_conflicts_tell_what_they_are_about(error: StoreError)
    ensures
        error is RevisionConflict ==> store_failure(error).details.len() == 1 && store_failure(error).details[0].1
            == DetailView::Number(error->current),
        error is MirrorBusy ==> store_failure(error).details.len() == 1 && store_failure(error).details[0].1
            == DetailView::Text(error->run_id@),
        error is AgentBindingConflict ==> store_failure(error).details.len() == 2 && store_failure(error).details[0].1
            == DetailView::Text(error->bound_agent_id@) && store_failure(error).details[1].1 == DetailView::Text(
            error->presented_agent_id@,
        ),
        !(error is RevisionConflict || error is MirrorBusy || error is AgentBindingConflict)
            ==> store_failure(error).details.len() == 0,
        error is InvalidConfig ==> store_failure(error).message == "configuration is invalid: "@ + error->InvalidConfig_0@,
        error is MirrorBusy ==> store_failure(error).message == "mirror already has active run "@ + error->run_id@,
        store_failure(error).status == 404 ==> store_failure(error).message == "not found"@,
{
}

} // verus!
