//! What each command asks the server for.
use super::errors::CliError;
use super::errors::CliErrorView;
use super::query;
use crate::domain::config::BundleFile;
use crate::domain::schedule::RunTrigger;
use crate::outside::pair_views;
use crate::protocol::ApplyRequest;
use crate::protocol::BindingReplaceRequest;
use crate::protocol::BundleRequest;
use crate::protocol::CredentialIssueRequest;
use crate::protocol::ManualRunRequest;
use crate::text;
use vstd::prelude::*;

verus! {

/// Which runs are listed.
#[derive(Debug, PartialEq, Eq)]
pub struct RunFilter {
    pub mirror: Option<String>,
    pub node: Option<String>,
    pub state: Option<String>,
    pub trigger: Option<String>,
    pub limit: Option<u32>,
    pub before: Option<String>,
}

/// A command that is one request.
#[derive(Debug, PartialEq, Eq)]
pub enum Command {
    ConfigValidate { files: Vec<BundleFile> },
    ConfigPlan { files: Vec<BundleFile> },
    ConfigApply { files: Vec<BundleFile>, base_revision: u64, acknowledge_moves: bool },
    MirrorList,
    MirrorShow { name: String },
    MirrorSync { name: String, request_id: String },
    NodeList,
    NodeShow { name: String },
    BindingReplace { name: String, agent_id: String, acknowledge_execution_risk: bool },
    CredentialIssue { name: String, label: Option<String> },
    CredentialList { name: String },
    CredentialRevoke { name: String, id: String },
    RunList { filter: RunFilter },
    RunShow { id: String },
    RunCancel { id: String },
    LogsPlan,
    LogsRun,
    BackupCreate,
    BackupList,
    BackupVerify { id: String },
    Status,
    Doctor,
}

/// What is sent along with a request.
#[derive(Debug, PartialEq, Eq)]
pub enum Payload {
    /// The request only reads.
    Get,
    Empty,
    Files(BundleRequest),
    Apply(ApplyRequest),
    Manual(ManualRunRequest),
    Binding(BindingReplaceRequest),
    Issue(CredentialIssueRequest),
}

/// A request to the server.
#[derive(Debug, PartialEq, Eq)]
pub struct Request {
    pub address: String,
    pub payload: Payload,
}

/// One pair of a query, where there is a value for it.
pub open spec fn pair(key: Seq<char>, value: Option<Seq<char>>) -> Seq<(Seq<char>, Seq<char>)> {
    match value {
        Some(value) => seq![(key, value)],
        None => Seq::empty(),
    }
}

/// The query of a list of runs: what the filter says, in a fixed order.
pub open spec fn filter_query(filter: RunFilter) -> Seq<(Seq<char>, Seq<char>)> {
    pair("mirror"@, text::opt_view(filter.mirror)) + pair("node"@, text::opt_view(filter.node)) + pair(
        "state"@,
        text::opt_view(filter.state),
    ) + pair("trigger"@, text::opt_view(filter.trigger)) + pair(
        "limit"@,
        match filter.limit {
            Some(limit) => Some(text::decimal(limit as nat)),
            None => None,
        },
    ) + pair("before"@, text::opt_view(filter.before))
}

fn add_pair(out: &mut Vec<(String, String)>, key: &str, value: &Option<String>)
    ensures
        pair_views(final(out)@) == pair_views(old(out)@) + pair(key@, text::opt_view(*value)),
{
    let ghost before = out@;
    if let Some(value) = value {
        out.push((key.to_owned(), value.clone()));
        assert(pair_views(out@) =~= pair_views(before) + pair(key@, Some(value@)));
    } else {
        assert(pair_views(out@) =~= pair_views(before) + pair(key@, None));
    }
}

/// The query of a list of runs.
pub fn filter_pairs(filter: &RunFilter) -> (r: Vec<(String, String)>)
    ensures
        pair_views(r@) == filter_query(*filter),
{
    let limit: Option<String> = match filter.limit {
        Some(limit) => Some(text::decimal_text(limit as u64)),
        None => None,
    };
    let mut out: Vec<(String, String)> = Vec::new();
    assert(pair_views(out@) =~= Seq::empty());
    add_pair(&mut out, "mirror", &filter.mirror);
    add_pair(&mut out, "node", &filter.node);
    add_pair(&mut out, "state", &filter.state);
    add_pair(&mut out, "trigger", &filter.trigger);
    add_pair(&mut out, "limit", &limit);
    add_pair(&mut out, "before", &filter.before);
    assert(pair_views(out@) =~= filter_query(*filter));
    out
}

/// The address of a command below the server's interface, or why there is none.
pub open spec fn address_of(base: Seq<char>, command: Command) -> Result<Seq<char>, CliErrorView> {
    match command {
        Command::ConfigValidate { .. } => Ok(base + "/config/validate"@),
        Command::ConfigPlan { .. } => Ok(base + "/config/plan"@),
        Command::ConfigApply { .. } => Ok(base + "/config/apply"@),
        Command::MirrorList => Ok(base + "/mirrors"@),
        Command::MirrorShow { name } => Ok(base + "/mirrors/"@ + name@),
        Command::MirrorSync { name, .. } => Ok(base + "/mirrors/"@ + name@ + "/runs"@),
        Command::NodeList => Ok(base + "/nodes"@),
        Command::NodeShow { name } => Ok(base + "/nodes/"@ + name@),
        Command::BindingReplace { name, .. } => Ok(base + "/nodes/"@ + name@ + "/binding"@),
        Command::CredentialIssue { name, .. } => Ok(base + "/nodes/"@ + name@ + "/credentials"@),
        Command::CredentialList { name } => Ok(base + "/nodes/"@ + name@ + "/credentials"@),
        Command::CredentialRevoke { name, id } => Ok(
            base + "/nodes/"@ + name@ + "/credentials/"@ + (id@ + "/revoke"@),
        ),
        Command::RunList { filter } => query::queried(base + "/runs"@, filter_query(filter)),
        Command::RunShow { id } => Ok(base + "/runs/"@ + id@),
        Command::RunCancel { id } => Ok(base + "/runs/"@ + id@ + "/cancel"@),
        Command::LogsPlan => Ok(base + "/maintenance/logs/plan"@),
        Command::LogsRun => Ok(base + "/maintenance/logs/run"@),
        Command::BackupCreate => Ok(base + "/backups"@),
        Command::BackupList => Ok(base + "/backups"@),
        Command::BackupVerify { id } => Ok(base + "/backups/"@ + id@ + "/verify"@),
        Command::Status => Ok(base + "/status"@),
        Command::Doctor => Ok(base + "/doctor"@),
    }
}

/// What a command sends along.
pub open spec fn payload_of(command: Command) -> Payload {
    match command {
        Command::ConfigValidate { files } => Payload::Files(BundleRequest { files }),
        Command::ConfigPlan { files } => Payload::Files(BundleRequest { files }),
        Command::ConfigApply { files, base_revision, acknowledge_moves } => Payload::Apply(
            ApplyRequest { files, base_revision, acknowledge_moves },
        ),
        Command::MirrorSync { request_id, .. } => Payload::Manual(
            ManualRunRequest { request_id, trigger: RunTrigger::Manual },
        ),
        Command::BindingReplace { agent_id, acknowledge_execution_risk, .. } => Payload::Binding(
            BindingReplaceRequest { agent_id, acknowledge_execution_risk },
        ),
        Command::CredentialIssue { label, .. } => Payload::Issue(CredentialIssueRequest { label }),
        Command::CredentialRevoke { .. }
        | Command::RunCancel { .. }
        | Command::LogsRun
        | Command::BackupCreate
        | Command::BackupVerify { .. } => Payload::Empty,
        _ => Payload::Get,
    }
}

/// True when the address of a command is short enough to be written.
pub open spec fn writable(base: Seq<char>, command: Command) -> bool {
    match command {
        Command::RunList { filter } => query::fits(base + "/runs"@, filter_query(filter)),
        _ => true,
    }
}

impl Command {
    /// Tells whether the address of the command is short enough to be written.
    pub fn fits(&self, base: &str) -> (r: bool)
        ensures
            r == writable(base@, *self),
    {
        match self {
            Command::RunList { filter } => {
                let pairs: Vec<(String, String)> = filter_pairs(filter);
                let address: String = text::join2(base, "/runs");
                query::query_fits(address.as_str(), &pairs)
            },
            _ => true,
        }
    }
}

/// The request that a command is.
pub fn request(base: &str, command: Command) -> (r: Result<Request, CliError>)
    requires
        writable(base@, command),
    ensures
        match r {
            Ok(request) => address_of(base@, command) == Ok::<Seq<char>, CliErrorView>(request.address@)
                && request.payload == payload_of(command),
            Err(error) => address_of(base@, command) == Err::<Seq<char>, CliErrorView>(error@),
        },
{
    let (address, payload): (String, Payload) = match command {
        Command::ConfigValidate { files } => (
            text::join2(base, "/config/validate"),
            Payload::Files(BundleRequest { files }),
        ),
        Command::ConfigPlan { files } => (
            text::join2(base, "/config/plan"),
            Payload::Files(BundleRequest { files }),
        ),
        Command::ConfigApply { files, base_revision, acknowledge_moves } => (
            text::join2(base, "/config/apply"),
            Payload::Apply(ApplyRequest { files, base_revision, acknowledge_moves }),
        ),
        Command::MirrorList => (text::join2(base, "/mirrors"), Payload::Get),
        Command::MirrorShow { name } => (text::join3(base, "/mirrors/", name.as_str()), Payload::Get),
        Command::MirrorSync { name, request_id } => (
            text::join4(base, "/mirrors/", name.as_str(), "/runs"),
            Payload::Manual(ManualRunRequest { request_id, trigger: RunTrigger::Manual }),
        ),
        Command::NodeList => (text::join2(base, "/nodes"), Payload::Get),
        Command::NodeShow { name } => (text::join3(base, "/nodes/", name.as_str()), Payload::Get),
        Command::BindingReplace { name, agent_id, acknowledge_execution_risk } => (
            text::join4(base, "/nodes/", name.as_str(), "/binding"),
            Payload::Binding(BindingReplaceRequest { agent_id, acknowledge_execution_risk }),
        ),
        Command::CredentialIssue { name, label } => (
            text::join4(base, "/nodes/", name.as_str(), "/credentials"),
            Payload::Issue(CredentialIssueRequest { label }),
        ),
        Command::CredentialList { name } => (
            text::join4(base, "/nodes/", name.as_str(), "/credentials"),
            Payload::Get,
        ),
        Command::CredentialRevoke { name, id } => {
            let tail: String = text::join2(id.as_str(), "/revoke");
            (text::join5(base, "/nodes/", name.as_str(), "/credentials/", tail.as_str()), Payload::Empty)
        },
        Command::RunList { filter } => {
            let pairs: Vec<(String, String)> = filter_pairs(&filter);
            let address: String = text::join2(base, "/runs");
            match query::with_query(address.as_str(), &pairs) {
                Ok(url) => (url, Payload::Get),
                Err(error) => {
                    return Err(error);
                },
            }
        },
        Command::RunShow { id } => (text::join3(base, "/runs/", id.as_str()), Payload::Get),
        Command::RunCancel { id } => (text::join4(base, "/runs/", id.as_str(), "/cancel"), Payload::Empty),
        Command::LogsPlan => (text::join2(base, "/maintenance/logs/plan"), Payload::Get),
        Command::LogsRun => (text::join2(base, "/maintenance/logs/run"), Payload::Empty),
        Command::BackupCreate => (text::join2(base, "/backups"), Payload::Empty),
        Command::BackupList => (text::join2(base, "/backups"), Payload::Get),
        Command::BackupVerify { id } => (
            text::join4(base, "/backups/", id.as_str(), "/verify"),
            Payload::Empty,
        ),
        Command::Status => (text::join2(base, "/status"), Payload::Get),
        Command::Doctor => (text::join2(base, "/doctor"), Payload::Get),
    };
    Ok(Request { address, payload })
}

/// What only looks is asked for without a body; what changes or computes something is posted, with what was given
/// on the command line and nothing else.
pub proof fn law_requests_carry_what_was_given(command: Command)
    ensures
        payload_of(command) is Get <==> command is MirrorList || command is MirrorShow || command is NodeList
            || command is NodeShow || command is CredentialList || command is RunList || command is RunShow
            || command is LogsPlan || command is BackupList || command is Status || command is Doctor,
        payload_of(command) is Empty <==> command is CredentialRevoke || command is RunCancel || command is LogsRun
            || command is BackupCreate || command is BackupVerify,
        command is ConfigApply ==> payload_of(command) is Apply && payload_of(command)->Apply_0.base_revision
            == command->base_revision && payload_of(command)->Apply_0.acknowledge_moves == command->acknowledge_moves
            && payload_of(command)->Apply_0.files == command->ConfigApply_files,
        command is ConfigValidate ==> payload_of(command) is Files && payload_of(command)->Files_0.files
            == command->ConfigValidate_files,
        command is ConfigPlan ==> payload_of(command) is Files && payload_of(command)->Files_0.files
            == command->ConfigPlan_files,
        command is MirrorSync ==> payload_of(command) is Manual && payload_of(command)->Manual_0.request_id == command->request_id
            && payload_of(command)->Manual_0.trigger == RunTrigger::Manual,
        command is BindingReplace ==> payload_of(command) is Binding && payload_of(command)->Binding_0.agent_id
            == command->agent_id && payload_of(command)->Binding_0.acknowledge_execution_risk
            == command->acknowledge_execution_risk,
        command is CredentialIssue ==> payload_of(command) is Issue && payload_of(command)->Issue_0.label == command->label,
{
}

/// Every request goes to the server it is for, and names what it is about behind it.
pub proof fn law_requests_go_to_their_server(base: Seq<char>, command: Command)
    requires
        !(command is RunList),
    ensures
        address_of(base, command) is Ok,
        text::begins_with(address_of(base, command)->Ok_0, base),
        command is RunCancel ==> address_of(base, command)->Ok_0 == address_of(
            base,
            Command::RunShow { id: command->RunCancel_id },
        )->Ok_0 + "/cancel"@,
        command is MirrorSync ==> address_of(base, command)->Ok_0 == address_of(
            base,
            Command::MirrorShow { name: command->MirrorSync_name },
        )->Ok_0 + "/runs"@,
        command is BindingReplace ==> address_of(base, command)->Ok_0 == address_of(
            base,
            Command::NodeShow { name: command->BindingReplace_name },
        )->Ok_0 + "/binding"@,
        command is CredentialIssue ==> address_of(base, command) == address_of(
            base,
            Command::CredentialList { name: command->CredentialIssue_name },
        ),
        command is CredentialList ==> address_of(base, command)->Ok_0 == address_of(
            base,
            Command::NodeShow { name: command->CredentialList_name },
        )->Ok_0 + "/credentials"@,
{
    let address = address_of(base, command)->Ok_0;
    assert(address.take(base.len() as int) =~= base);
}

/// Runs are asked for by exactly the filters that were given, each under its own name.
pub proof fn law_given_filters_are_asked_for(filter: RunFilter, key: Seq<char>, value: Seq<char>)
    ensures
        filter_query(filter).contains((key, value)) <==> {
            ||| key == "mirror"@ && filter.mirror is Some && filter.mirror->0@ == value
            ||| key == "node"@ && filter.node is Some && filter.node->0@ == value
            ||| key == "state"@ && filter.state is Some && filter.state->0@ == value
            ||| key == "trigger"@ && filter.trigger is Some && filter.trigger->0@ == value
            ||| key == "limit"@ && filter.limit is Some && text::decimal(filter.limit->0 as nat) == value
            ||| key == "before"@ && filter.before is Some && filter.before->0@ == value
        },
{
    let limit = match filter.limit {
        Some(limit) => Some(text::decimal(limit as nat)),
        None => None,
    };
    let a = pair("mirror"@, text::opt_view(filter.mirror));
    let b = pair("node"@, text::opt_view(filter.node));
    let c = pair("state"@, text::opt_view(filter.state));
    let d = pair("trigger"@, text::opt_view(filter.trigger));
    let e = pair("limit"@, limit);
    let f = pair("before"@, text::opt_view(filter.before));
    let one = (key, value);
    lemma_either_contains(a, b, one);
    lemma_either_contains(a + b, c, one);
    lemma_either_contains(a + b + c, d, one);
    lemma_either_contains(a + b + c + d, e, one);
    lemma_either_contains(a + b + c + d + e, f, one);
    lemma_pair_contains("mirror"@, text::opt_view(filter.mirror), one);
    lemma_pair_contains("node"@, text::opt_view(filter.node), one);
    lemma_pair_contains("state"@, text::opt_view(filter.state), one);
    lemma_pair_contains("trigger"@, text::opt_view(filter.trigger), one);
    lemma_pair_contains("limit"@, limit, one);
    lemma_pair_contains("before"@, text::opt_view(filter.before), one);
}

proof fn lemma_either_contains(a: Seq<(Seq<char>, Seq<char>)>, b: Seq<(Seq<char>, Seq<char>)>, one: (Seq<char>, Seq<char>))
    ensures
        (a + b).contains(one) <==> a.contains(one) || b.contains(one),
{
    if a.contains(one) {
        let i = choose|i: int| 0 <= i < a.len() && a[i] == one;
        assert((a + b)[i] == one);
    }
    if b.contains(one) {
        let i = choose|i: int| 0 <= i < b.len() && b[i] == one;
        assert((a + b)[a.len() + i] == one);
    }
    if (a + b).contains(one) {
        let i = choose|i: int| 0 <= i < (a + b).len() && (a + b)[i] == one;
        if i < a.len() {
            assert(a[i] == one);
        } else {
            assert(b[i - a.len()] == one);
        }
    }
}

proof fn lemma_pair_contains(key: Seq<char>, value: Option<Seq<char>>, one: (Seq<char>, Seq<char>))
    ensures
        pair(key, value).contains(one) <==> value is Some && one == (key, value->0),
{
    if value is Some {
        assert(pair(key, value)[0] == (key, value->0));
    }
}

} // verus!
