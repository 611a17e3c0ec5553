//! How an agent is set up.
use crate::domain::ids;
use crate::domain::ids::InvalidIdentifier;
use crate::domain::ids::NodeName;
use crate::outside;
use vstd::prelude::*;

verus! {

/// How an agent is set up.
#[derive(Debug, PartialEq, Eq)]
pub struct Config {
    pub node: Node,
    pub server: Server,
    pub storage: Storage,
    pub execution: Execution,
    pub runner: Runner,
    pub logging: Option<Logging>,
}

/// What the agent itself writes to its log.
#[derive(Debug, PartialEq, Eq)]
pub struct Logging {
    pub level: String,
    pub format: LoggingFormat,
}

/// How the agent writes its log.
#[derive(Clone, Copy, Debug, PartialEq, Eq, Structural)]
pub enum LoggingFormat {
    Json,
    Text,
}

/// Which node the agent is.
#[derive(Debug, PartialEq, Eq)]
pub struct Node {
    pub name: String,
}

/// Where the server is and what the agent shows it.
#[derive(Debug, PartialEq, Eq)]
pub struct Server {
    pub url: String,
    pub token_file: String,
}

/// Where the agent keeps mirrors, records and private generations.
#[derive(Debug, PartialEq, Eq)]
pub struct Storage {
    pub mirror_root: String,
    pub spool_dir: String,
    pub publication_root: Option<String>,
    pub publication_max_private_generations: Option<u32>,
    pub publication_reserve_bytes: Option<u64>,
}

/// How much the agent does at a time.
#[derive(Clone, Copy, Debug, PartialEq, Eq, Structural)]
pub struct Execution {
    pub max_concurrent_runs: u32,
}

/// What the agent runs.
#[derive(Clone, Copy, Debug, PartialEq, Eq, Structural)]
pub struct Runner {
    pub process: ProcessPolicy,
}

/// Whether the agent runs processes.
#[derive(Clone, Copy, Debug, PartialEq, Eq, Structural)]
pub struct ProcessPolicy {
    pub enabled: bool,
}

/// The level at which an agent logs that is told none.
pub fn logging_level_default() -> (r: String)
    ensures
        r@ == "info"@,
{
    "info".to_owned()
}

/// The form in which an agent logs that is told none.
pub fn logging_format_default() -> (r: LoggingFormat)
    ensures
        r == LoggingFormat::Json,
{
    LoggingFormat::Json
}

/// Why an agent cannot be set up so, if it cannot: its node needs a name and it needs room for a
/// run.
pub open spec fn config_fault(config: Config) -> Option<Seq<char>> {
    if !ids::is_name(config.node.name@) {
        Some("invalid node name: "@ + outside::debug_quoted(config.node.name@))
    } else if config.execution.max_concurrent_runs == 0 {
        Some("max_concurrent_runs must be positive"@)
    } else {
        None
    }
}

impl Config {
    /// Accepts a configuration that an agent can work with.
    pub fn check(&self) -> (r: Result<(), String>)
        ensures
            match r {
                Ok(()) => config_fault(*self) is None,
                Err(error) => config_fault(*self) == Some(error@),
            },
    {
        if let Err(error) = NodeName::new(self.node.name.as_str()) {
            let invalid: InvalidIdentifier = error;
            let message: String = invalid.message();
            proof {
                reveal_strlit("invalid ");
                reveal_strlit("node name");
                reveal_strlit(": ");
                reveal_strlit("invalid node name: ");
                assert("invalid "@ + "node name"@ + ": "@ =~= "invalid node name: "@);
            }
            return Err(message);
        }
        if self.execution.max_concurrent_runs == 0 {
            return Err("max_concurrent_runs must be positive".to_owned());
        }
        Ok(())
    }
}

/// An agent is set up where its node has a name that a node can have and it may run something.
pub proof fn law_agents_have_a_name_and_room(config: Config)
    ensures
        config_fault(config) is None <==> ids::is_name(config.node.name@) && config.execution.max_concurrent_runs > 0,
{
}

} // verus!
