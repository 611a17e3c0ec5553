//! Mirror configuration: validation, canonical bundles and the compilation of run specifications.
use super::ids::MirrorName;
use super::ids::NodeName;
use super::schedule;
use super::schedule::ScheduleConfig;
use crate::outside;
use crate::path;
use crate::text;
use vstd::prelude::*;
use vstd::utf8::encode_utf8;

verus! {

/// A file of a configuration bundle.
#[derive(Debug, PartialEq, Eq)]
pub struct BundleFile {
    pub path: String,
    pub contents: String,
}

impl Clone for BundleFile {
    fn clone(&self) -> (r: Self)
        ensures
            r == *self,
    {
        BundleFile { path: self.path.clone(), contents: self.contents.clone() }
    }
}

/// The files of a configuration.
#[derive(Debug, PartialEq, Eq)]
pub struct ConfigBundle {
    pub files: Vec<BundleFile>,
}

/// The configuration of one mirror.
#[derive(Debug, PartialEq, Eq)]
pub struct MirrorDocument {
    pub mirror: MirrorConfig,
    pub schedule: Option<ScheduleConfig>,
    pub sync: SyncConfig,
    pub publication: Option<PublicationConfig>,
    pub runner: ProcessRunner,
    pub run: RunPolicy,
}

/// How a mirror is published.
#[derive(Clone, Copy, Debug, PartialEq, Eq, Structural)]
pub struct PublicationConfig {
    pub mode: PublicationMode,
}

/// Whether a run writes into the published tree or into a candidate that replaces it at once.
#[derive(Clone, Copy, Debug, PartialEq, Eq, Structural)]
pub enum PublicationMode {
    Direct,
    Atomic,
}

impl MirrorDocument {
    /// The publication mode, direct unless the document says otherwise.
    pub open spec fn mode(self) -> PublicationMode {
        match self.publication {
            Some(publication) => publication.mode,
            None => PublicationMode::Direct,
        }
    }

    /// The publication mode, direct unless the document says otherwise.
    pub fn publication_mode(&self) -> (r: PublicationMode)
        ensures
            r == self.mode(),
    {
        match &self.publication {
            Some(publication) => publication.mode,
            None => PublicationMode::Direct,
        }
    }
}

/// Name, place and state of a mirror.
#[derive(Debug, PartialEq, Eq)]
pub struct MirrorConfig {
    pub name: MirrorName,
    pub enabled: bool,
    pub description: String,
    pub target: String,
}

/// What a run executes.
#[derive(Debug, PartialEq, Eq)]
pub enum SyncConfig {
    Command { program: String, args: Vec<String>, cwd: Option<String> },
    Rsync { source: String, args: Vec<String> },
}

/// What executes it.
#[derive(Clone, Copy, Debug, PartialEq, Eq, Structural)]
pub struct ProcessRunner {
    pub kind: ProcessRunnerKind,
}

/// The kinds of runner.
#[derive(Clone, Copy, Debug, PartialEq, Eq, Structural)]
pub enum ProcessRunnerKind {
    Process,
}

impl Default for ProcessRunner {
    fn default() -> (r: Self)
        ensures
            r.kind == ProcessRunnerKind::Process,
    {
        ProcessRunner { kind: ProcessRunnerKind::Process }
    }
}

/// How long a run may take and how often it is tried.
#[derive(Clone, Copy, Debug, PartialEq, Eq, Structural)]
pub struct RunPolicy {
    pub timeout_seconds: u64,
    pub max_attempts: u32,
    pub retry_delay_seconds: u64,
}

impl Default for RunPolicy {
    fn default() -> (r: Self)
        ensures
            r.timeout_seconds == 3600,
            r.max_attempts == 1,
            r.retry_delay_seconds == 0,
    {
        RunPolicy { timeout_seconds: 3600, max_attempts: 1, retry_delay_seconds: 0 }
    }
}

/// A mirror of a canonical bundle.
#[derive(Debug, PartialEq, Eq)]
pub struct CanonicalMirror {
    pub owner_node: NodeName,
    pub document: MirrorDocument,
    pub canonical_toml: String,
    pub config_hash: String,
}

impl CanonicalMirror {
    /// The mirror's name.
    pub open spec fn name(self) -> Seq<char> {
        self.document.mirror.name@
    }

    /// The mirror's target directory.
    pub open spec fn target(self) -> Seq<char> {
        self.document.mirror.target@
    }
}

/// A valid configuration: its mirrors in the order of their names, each name once.
#[derive(Debug, PartialEq, Eq)]
pub struct CanonicalBundle {
    pub mirrors: Vec<CanonicalMirror>,
    pub bundle_hash: String,
}

/// Why a configuration is refused.
#[derive(Debug, PartialEq, Eq)]
pub enum ConfigError {
    InvalidPath { path: String },
    InvalidToml { path: String, message: String },
    DuplicateMirror { name: MirrorName },
    NameMismatch { stem: String, name: MirrorName },
    UnsafeTarget(String),
    EmptyProgram,
    InvalidTimeout,
    InvalidMaxAttempts,
    InvalidRetryDelay,
    EmptyRsyncSource,
    InvalidSchedule(String),
    UnsupportedPlaceholder(String),
    MissingPublicationRoot,
    TargetOverlap { node: NodeName, first: MirrorName, second: MirrorName },
    AtomicRsyncOption { option: String, reason: &'static str },
}

/// What a configuration error holds.
pub enum ConfigFault {
    InvalidPath { path: Seq<char> },
    InvalidToml { path: Seq<char>, message: Seq<char> },
    DuplicateMirror { name: Seq<char> },
    NameMismatch { stem: Seq<char>, name: Seq<char> },
    UnsafeTarget(Seq<char>),
    EmptyProgram,
    InvalidTimeout,
    InvalidMaxAttempts,
    InvalidRetryDelay,
    EmptyRsyncSource,
    InvalidSchedule(Seq<char>),
    UnsupportedPlaceholder(Seq<char>),
    MissingPublicationRoot,
    TargetOverlap { node: Seq<char>, first: Seq<char>, second: Seq<char> },
    AtomicRsyncOption { option: Seq<char>, reason: Seq<char> },
}

impl ConfigError {
    /// What the error holds.
    pub open spec fn view(&self) -> ConfigFault {
        match *self {
            ConfigError::InvalidPath { path } => ConfigFault::InvalidPath { path: path@ },
            ConfigError::InvalidToml { path, message } => ConfigFault::InvalidToml { path: path@, message: message@ },
            ConfigError::DuplicateMirror { name } => ConfigFault::DuplicateMirror { name: name@ },
            ConfigError::NameMismatch { stem, name } => ConfigFault::NameMismatch { stem: stem@, name: name@ },
            ConfigError::UnsafeTarget(target) => ConfigFault::UnsafeTarget(target@),
            ConfigError::EmptyProgram => ConfigFault::EmptyProgram,
            ConfigError::InvalidTimeout => ConfigFault::InvalidTimeout,
            ConfigError::InvalidMaxAttempts => ConfigFault::InvalidMaxAttempts,
            ConfigError::InvalidRetryDelay => ConfigFault::InvalidRetryDelay,
            ConfigError::EmptyRsyncSource => ConfigFault::EmptyRsyncSource,
            ConfigError::InvalidSchedule(message) => ConfigFault::InvalidSchedule(message@),
            ConfigError::UnsupportedPlaceholder(name) => ConfigFault::UnsupportedPlaceholder(name@),
            ConfigError::MissingPublicationRoot => ConfigFault::MissingPublicationRoot,
            ConfigError::TargetOverlap { node, first, second } => ConfigFault::TargetOverlap {
                node: node@,
                first: first@,
                second: second@,
            },
            ConfigError::AtomicRsyncOption { option, reason } => ConfigFault::AtomicRsyncOption {
                option: option@,
                reason: reason@,
            },
        }
    }

    /// The message for a reader.
    pub fn message(&self) -> (r: String)
        ensures
            r@ == fault_message(self@),
    {
        match self {
            ConfigError::InvalidPath { path } => text::join3(
                "invalid bundle path ",
                outside::quoted(path.as_str()).as_str(),
                ": expected nodes/<node>/mirrors/<name>.toml",
            ),
            ConfigError::InvalidToml { path, message } => text::join4(
                "invalid TOML in ",
                path.as_str(),
                ": ",
                message.as_str(),
            ),
            ConfigError::DuplicateMirror { name } => text::join3("mirror ", name.as_str(), " is defined more than once"),
            ConfigError::NameMismatch { stem, name } => text::join4(
                "mirror file stem ",
                outside::quoted(stem.as_str()).as_str(),
                " does not match mirror.name ",
                name.as_str(),
            ),
            ConfigError::UnsafeTarget(target) => text::join2(
                "mirror target must be a safe relative path: ",
                outside::quoted(target.as_str()).as_str(),
            ),
            ConfigError::EmptyProgram => "command program must not be empty".to_owned(),
            ConfigError::InvalidTimeout => "timeout_seconds must be between 1 and 604800".to_owned(),
            ConfigError::InvalidMaxAttempts => "max_attempts must be between 1 and 10".to_owned(),
            ConfigError::InvalidRetryDelay => "retry_delay_seconds must not exceed 86400".to_owned(),
            ConfigError::EmptyRsyncSource => "rsync source must not be empty".to_owned(),
            ConfigError::InvalidSchedule(message) => text::join2("invalid schedule: ", message.as_str()),
            ConfigError::UnsupportedPlaceholder(name) => text::join2("unsupported placeholder ", name.as_str()),
            ConfigError::MissingPublicationRoot => "atomic publication requires an Agent publication root".to_owned(),
            ConfigError::TargetOverlap { node, first, second } => text::join2(
                text::join4("mirror targets overlap on Node ", node.as_str(), ": ", first.as_str()).as_str(),
                text::join2(" and ", second.as_str()).as_str(),
            ),
            ConfigError::AtomicRsyncOption { option, reason } => text::join4(
                "atomic rsync option ",
                outside::quoted(option.as_str()).as_str(),
                " is invalid: ",
                reason,
            ),
        }
    }
}

/// The message for a configuration error.
pub open spec fn fault_message(fault: ConfigFault) -> Seq<char> {
    match fault {
        ConfigFault::InvalidPath { path } => "invalid bundle path "@ + outside::debug_quoted(path)
            + ": expected nodes/<node>/mirrors/<name>.toml"@,
        ConfigFault::InvalidToml { path, message } => "invalid TOML in "@ + path + ": "@ + message,
        ConfigFault::DuplicateMirror { name } => "mirror "@ + name + " is defined more than once"@,
        ConfigFault::NameMismatch { stem, name } => "mirror file stem "@ + outside::debug_quoted(stem)
            + " does not match mirror.name "@ + name,
        ConfigFault::UnsafeTarget(target) => "mirror target must be a safe relative path: "@ + outside::debug_quoted(
            target,
        ),
        ConfigFault::EmptyProgram => "command program must not be empty"@,
        ConfigFault::InvalidTimeout => "timeout_seconds must be between 1 and 604800"@,
        ConfigFault::InvalidMaxAttempts => "max_attempts must be between 1 and 10"@,
        ConfigFault::InvalidRetryDelay => "retry_delay_seconds must not exceed 86400"@,
        ConfigFault::EmptyRsyncSource => "rsync source must not be empty"@,
        ConfigFault::InvalidSchedule(message) => "invalid schedule: "@ + message,
        ConfigFault::UnsupportedPlaceholder(name) => "unsupported placeholder "@ + name,
        ConfigFault::MissingPublicationRoot => "atomic publication requires an Agent publication root"@,
        ConfigFault::TargetOverlap { node, first, second } => "mirror targets overlap on Node "@ + node + ": "@ + first
            + (" and "@ + second),
        ConfigFault::AtomicRsyncOption { option, reason } => "atomic rsync option "@ + outside::debug_quoted(option)
            + " is invalid: "@ + reason,
    }
}

/// The view of an acceptance or of an error.
pub open spec fn config_fault(r: Result<(), ConfigError>) -> Option<ConfigFault> {
    match r {
        Ok(()) => None,
        Err(error) => Some(error@),
    }
}

/// The publication mode of a stored mirror generation, given what reading its document came to.
pub fn publication_mode_from_toml(parsed: &Result<MirrorDocument, String>) -> (r: Result<PublicationMode, ConfigError>)
    ensures
        match parsed {
            Ok(document) => r == Ok::<PublicationMode, ConfigError>(document.mode()),
            Err(message) => r is Err && r->Err_0@ == (ConfigFault::InvalidToml {
                path: "<stored mirror generation>"@,
                message: message@,
            }),
        },
{
    match parsed {
        Ok(document) => Ok(document.publication_mode()),
        Err(message) => Err(
            ConfigError::InvalidToml { path: "<stored mirror generation>".to_owned(), message: message.clone() },
        ),
    }
}

/// True of the names that a placeholder may hold.
pub open spec fn is_placeholder(name: Seq<char>) -> bool {
    ||| name == "mirror_name"@
    ||| name == "run_id"@
    ||| name == "attempt"@
    ||| name == "node_name"@
    ||| name == "mirror_root"@
    ||| name == "target_dir"@
    ||| name == "published_dir"@
}

/// What is wrong with the placeholders of a text: a closing brace that nothing opened, with all
/// that follows it; what follows an opening brace that nothing closes; or an unknown name.
pub open spec fn placeholder_fault(value: Seq<char>) -> Option<Seq<char>>
    decreases value.len(),
{
    if value.len() == 0 {
        None
    } else if value[0] == '}' {
        Some(value)
    } else if value[0] != '{' {
        placeholder_fault(value.skip(1))
    } else {
        let after = value.skip(1);
        match text::find_char(after, '}') {
            None => Some(after),
            Some(close) => if !is_placeholder(after.take(close)) {
                Some(after.take(close))
            } else if 0 <= close < after.len() {
                placeholder_fault(after.skip(close + 1))
            } else {
                None
            },
        }
    }
}

/// Holds the placeholders of a text to the known names.
pub fn validate_placeholders(value: &str) -> (r: Result<(), ConfigError>)
    ensures
        config_fault(r) == (match placeholder_fault(value@) {
            Some(name) => Some(ConfigFault::UnsupportedPlaceholder(name)),
            None => None,
        }),
{
    let chars: Vec<char> = text::chars_of(value);
    let mut i: usize = 0;
    assert(value@.skip(0) == value@);
    while i < chars.len()
        invariant
            i <= chars.len(),
            chars@ == value@,
            placeholder_fault(value@) == placeholder_fault(value@.skip(i as int)),
        decreases chars.len() - i,
    {
        let ghost rest = value@.skip(i as int);
        assert(rest.skip(1) == value@.skip(i + 1));
        if chars[i] == '}' {
            let tail: String = text::text_between(&chars, i, chars.len());
            assert(chars@.subrange(i as int, chars.len() as int) == rest);
            return Err(ConfigError::UnsupportedPlaceholder(tail));
        }
        if chars[i] == '{' {
            match text::find_from(&chars, i + 1, '}') {
                None => {
                    let tail: String = text::text_between(&chars, i + 1, chars.len());
                    assert(chars@.subrange(i + 1, chars.len() as int) == rest.skip(1));
                    return Err(ConfigError::UnsupportedPlaceholder(tail));
                },
                Some(close) => {
                    let name: String = text::text_between(&chars, i + 1, close);
                    proof {
                        assert(chars@.subrange(i + 1, close as int) == rest.skip(1).take(close - (i + 1)));
                        assert(rest.skip(1).skip(close - (i + 1) + 1) == value@.skip(close + 1));
                    }
                    let known: bool = text::same(name.as_str(), "mirror_name") || text::same(name.as_str(), "run_id")
                        || text::same(name.as_str(), "attempt") || text::same(name.as_str(), "node_name")
                        || text::same(name.as_str(), "mirror_root") || text::same(name.as_str(), "target_dir")
                        || text::same(name.as_str(), "published_dir");
                    if !known {
                        return Err(ConfigError::UnsupportedPlaceholder(name));
                    }
                    i = close + 1;
                },
            }
        } else {
            i = i + 1;
        }
    }
    assert(value@.skip(i as int).len() == 0);
    Ok(())
}

/// Long rsync options without a value that an atomic candidate may be filled with.
pub open spec fn rsync_flag(name: Seq<char>) -> bool {
    ||| name == "archive"@
    ||| name == "recursive"@
    ||| name == "links"@
    ||| name == "perms"@
    ||| name == "times"@
    ||| name == "group"@
    ||| name == "owner"@
    ||| name == "devices"@
    ||| name == "specials"@
    ||| name == "hard-links"@
    ||| name == "acls"@
    ||| name == "xattrs"@
    ||| name == "numeric-ids"@
    ||| name == "prune-empty-dirs"@
    ||| name == "compress"@
    ||| name == "whole-file"@
    ||| name == "checksum"@
    ||| name == "size-only"@
    ||| name == "ignore-times"@
    ||| name == "protect-args"@
    ||| name == "itemize-changes"@
    ||| name == "stats"@
    ||| name == "human-readable"@
    ||| name == "verbose"@
    ||| name == "quiet"@
    ||| name == "progress"@
    ||| name == "copy-links"@
    ||| name == "safe-links"@
    ||| name == "copy-unsafe-links"@
}

/// Long rsync options with a value that an atomic candidate may be filled with.
pub open spec fn rsync_value(name: Seq<char>) -> bool {
    ||| name == "include"@
    ||| name == "exclude"@
    ||| name == "filter"@
    ||| name == "include-from"@
    ||| name == "exclude-from"@
    ||| name == "files-from"@
    ||| name == "max-size"@
    ||| name == "min-size"@
    ||| name == "bwlimit"@
    ||| name == "timeout"@
    ||| name == "contimeout"@
    ||| name == "block-size"@
    ||| name == "checksum-choice"@
    ||| name == "compress-choice"@
}

/// Long rsync options that only mean something where the destination already holds files.
pub open spec fn rsync_history(name: Seq<char>) -> bool {
    ||| name == "delete"@
    ||| name == "delete-before"@
    ||| name == "delete-during"@
    ||| name == "delete-delay"@
    ||| name == "delete-after"@
    ||| name == "delete-excluded"@
    ||| name == "max-delete"@
    ||| name == "force"@
    ||| name == "ignore-errors"@
    ||| name == "existing"@
    ||| name == "ignore-existing"@
    ||| name == "ignore-non-existing"@
    ||| name == "update"@
}

/// Long rsync options that touch what the publication itself decides.
pub open spec fn rsync_owned(name: Seq<char>) -> bool {
    ||| name == "inplace"@
    ||| name == "append"@
    ||| name == "append-verify"@
    ||| name == "write-devices"@
    ||| name == "link-dest"@
    ||| name == "copy-dest"@
    ||| name == "compare-dest"@
    ||| name == "backup"@
    ||| name == "backup-dir"@
    ||| name == "suffix"@
    ||| name == "partial"@
    ||| name == "partial-dir"@
    ||| name == "remove-source-files"@
    ||| name == "remove-sent-files"@
    ||| name == "dry-run"@
    ||| name == "list-only"@
}

/// How a long rsync option is treated.
#[derive(Clone, Copy, Debug, PartialEq, Eq)]
pub enum AtomicRsyncOptionKind {
    Flag,
    Value,
    Rejected(&'static str),
}

/// How a long rsync option is treated; nothing for one outside the audited profile.
pub fn atomic_rsync_long_option(name: &str) -> (r: Option<AtomicRsyncOptionKind>)
    ensures
        match r {
            Some(AtomicRsyncOptionKind::Flag) => rsync_flag(name@),
            Some(AtomicRsyncOptionKind::Value) => !rsync_flag(name@) && rsync_value(name@),
            Some(AtomicRsyncOptionKind::Rejected(reason)) => !rsync_flag(name@) && !rsync_value(name@) && (if rsync_history(
                name@,
            ) {
                reason@ == "fresh-generation Atomic publication has no existing destination history"@
            } else {
                rsync_owned(name@) && reason@
                    == "option conflicts with LMT-owned Atomic candidate materialization"@
            }),
            None => !rsync_flag(name@) && !rsync_value(name@) && !rsync_history(name@) && !rsync_owned(name@),
        },
{
    if text::same(name, "archive") || text::same(name, "recursive") || text::same(name, "links") || text::same(
        name,
        "perms",
    ) || text::same(name, "times") || text::same(name, "group") || text::same(name, "owner") || text::same(
        name,
        "devices",
    ) || text::same(name, "specials") || text::same(name, "hard-links") || text::same(name, "acls") || text::same(
        name,
        "xattrs",
    ) || text::same(name, "numeric-ids") || text::same(name, "prune-empty-dirs") || text::same(name, "compress")
        || text::same(name, "whole-file") || text::same(name, "checksum") || text::same(name, "size-only")
        || text::same(name, "ignore-times") || text::same(name, "protect-args") || text::same(name, "itemize-changes")
        || text::same(name, "stats") || text::same(name, "human-readable") || text::same(name, "verbose")
        || text::same(name, "quiet") || text::same(name, "progress") || text::same(name, "copy-links") || text::same(
        name,
        "safe-links",
    ) || text::same(name, "copy-unsafe-links") {
        return Some(AtomicRsyncOptionKind::Flag);
    }
    if text::same(name, "include") || text::same(name, "exclude") || text::same(name, "filter") || text::same(
        name,
        "include-from",
    ) || text::same(name, "exclude-from") || text::same(name, "files-from") || text::same(name, "max-size")
        || text::same(name, "min-size") || text::same(name, "bwlimit") || text::same(name, "timeout") || text::same(
        name,
        "contimeout",
    ) || text::same(name, "block-size") || text::same(name, "checksum-choice") || text::same(name, "compress-choice") {
        return Some(AtomicRsyncOptionKind::Value);
    }
    if text::same(name, "delete") || text::same(name, "delete-before") || text::same(name, "delete-during")
        || text::same(name, "delete-delay") || text::same(name, "delete-after") || text::same(name, "delete-excluded")
        || text::same(name, "max-delete") || text::same(name, "force") || text::same(name, "ignore-errors")
        || text::same(name, "existing") || text::same(name, "ignore-existing") || text::same(
        name,
        "ignore-non-existing",
    ) || text::same(name, "update") {
        return Some(
            AtomicRsyncOptionKind::Rejected("fresh-generation Atomic publication has no existing destination history"),
        );
    }
    if text::same(name, "inplace") || text::same(name, "append") || text::same(name, "append-verify") || text::same(
        name,
        "write-devices",
    ) || text::same(name, "link-dest") || text::same(name, "copy-dest") || text::same(name, "compare-dest")
        || text::same(name, "backup") || text::same(name, "backup-dir") || text::same(name, "suffix") || text::same(
        name,
        "partial",
    ) || text::same(name, "partial-dir") || text::same(name, "remove-source-files") || text::same(
        name,
        "remove-sent-files",
    ) || text::same(name, "dry-run") || text::same(name, "list-only") {
        return Some(
            AtomicRsyncOptionKind::Rejected("option conflicts with LMT-owned Atomic candidate materialization"),
        );
    }
    None
}

/// Short rsync options that an atomic candidate may be filled with.
pub open spec fn rsync_short(c: char) -> bool {
    ||| c == 'a'
    ||| c == 'r'
    ||| c == 'l'
    ||| c == 'p'
    ||| c == 't'
    ||| c == 'g'
    ||| c == 'o'
    ||| c == 'D'
    ||| c == 'H'
    ||| c == 'A'
    ||| c == 'X'
    ||| c == 'z'
    ||| c == 's'
    ||| c == 'v'
    ||| c == 'q'
}

/// A text parted at its first equals sign.
pub open spec fn split_equals(long: Seq<char>) -> (Seq<char>, Option<Seq<char>>) {
    match text::find_char(long, '=') {
        Some(at) => (long.take(at), Some(long.skip(at + 1))),
        None => (long, None),
    }
}

/// What the first of some arguments is taken for: how many arguments it takes up, or why it is
/// refused.
pub open spec fn rsync_step(args: Seq<Seq<char>>) -> Result<nat, Seq<char>> {
    let argument = args[0];
    if text::begins_with(argument, "--"@) {
        let (name, inline) = split_equals(argument.skip(2));
        if rsync_flag(name) {
            if inline is None {
                Ok(1)
            } else {
                Err("flag does not accept a value"@)
            }
        } else if rsync_value(name) {
            if inline is Some && inline->0.len() > 0 {
                Ok(1)
            } else if inline is None && args.len() > 1 && !text::begins_with(args[1], "-"@) {
                Ok(2)
            } else {
                Err("option requires a value"@)
            }
        } else if rsync_history(name) {
            Err("fresh-generation Atomic publication has no existing destination history"@)
        } else if rsync_owned(name) {
            Err("option conflicts with LMT-owned Atomic candidate materialization"@)
        } else {
            Err("option is not in the audited Atomic profile"@)
        }
    } else if text::begins_with(argument, "-"@) {
        if argument.len() == 1 || exists|i: int| 1 <= i < argument.len() && !rsync_short(#[trigger] argument[i]) {
            Err("short option is not in the audited Atomic profile"@)
        } else {
            Ok(1)
        }
    } else {
        Err("positional arguments are owned by LMT"@)
    }
}

/// The first argument that is refused, and why.
pub open spec fn rsync_fault(args: Seq<Seq<char>>) -> Option<ConfigFault>
    decreases args.len(),
{
    if args.len() == 0 {
        None
    } else {
        match rsync_step(args) {
            Err(reason) => Some(ConfigFault::AtomicRsyncOption { option: args[0], reason }),
            Ok(taken) => if 0 < taken <= args.len() {
                rsync_fault(args.skip(taken as int))
            } else {
                None
            },
        }
    }
}

/// Arguments are read one by one: behind arguments that are accepted, further ones are refused for
/// what they are refused for by themselves.
pub proof fn law_accepted_arguments_can_be_extended(args: Seq<Seq<char>>, more: Seq<Seq<char>>)
    requires
        rsync_fault(args) is None,
    ensures
        rsync_fault(args + more) == rsync_fault(more),
    decreases args.len(),
{
    let all = args + more;
    if args.len() == 0 {
        assert(all == more);
    } else {
        let taken = rsync_step(args)->Ok_0;
        assert(all[0] == args[0]);
        assert(args.len() > 1 ==> all[1] == args[1]);
        assert(rsync_step(all) == rsync_step(args));
        assert(0 < taken <= args.len());
        assert(all.skip(taken as int) == args.skip(taken as int) + more);
        law_accepted_arguments_can_be_extended(args.skip(taken as int), more);
    }
}

fn long_option_step(argument: &str, next: Option<&str>) -> (r: Result<usize, &'static str>)
    requires
        text::begins_with(argument@, "--"@),
    ensures
        forall|args: Seq<Seq<char>>|
            args.len() > 0 && args[0] == argument@ && (next is Some <==> args.len() > 1) && (next is Some ==> args[1]
                == next->0@) ==> (match r {
                Ok(taken) => #[trigger] rsync_step(args) == Ok::<nat, Seq<char>>(taken as nat) && 1 <= taken
                    <= args.len(),
                Err(reason) => rsync_step(args) == Err::<nat, Seq<char>>(reason@),
            }),
{
    let chars: Vec<char> = text::chars_of(argument);
    proof {
        reveal_strlit("--");
    }
    let ghost long = argument@.skip(2);
    let at: Option<usize> = text::find_from(&chars, 2, '=');
    let name: String = match at {
        Some(place) => text::text_between(&chars, 2, place),
        None => text::text_between(&chars, 2, chars.len()),
    };
    proof {
        match at {
            Some(place) => {
                assert(chars@.subrange(2, place as int) == long.take(place - 2));
            },
            None => {
                assert(chars@.subrange(2, chars.len() as int) == long);
            },
        }
        assert(name@ == split_equals(long).0);
    }
    match atomic_rsync_long_option(name.as_str()) {
        Some(AtomicRsyncOptionKind::Flag) => {
            if at.is_none() {
                Ok(1)
            } else {
                Err("flag does not accept a value")
            }
        },
        Some(AtomicRsyncOptionKind::Value) => {
            match at {
                Some(place) => {
                    assert(long.skip(place - 2 + 1).len() == chars.len() - (place + 1));
                    if place + 1 < chars.len() {
                        Ok(1)
                    } else {
                        Err("option requires a value")
                    }
                },
                None => match next {
                    Some(following) => {
                        if text::starts_with(following, "-") {
                            Err("option requires a value")
                        } else {
                            Ok(2)
                        }
                    },
                    None => Err("option requires a value"),
                },
            }
        },
        Some(AtomicRsyncOptionKind::Rejected(reason)) => Err(reason),
        None => Err("option is not in the audited Atomic profile"),
    }
}

fn short_options_known(argument: &str) -> (r: bool)
    ensures
        r == (argument@.len() > 1 && forall|i: int| 1 <= i < argument@.len() ==> rsync_short(#[trigger] argument@[i])),
{
    let chars: Vec<char> = text::chars_of(argument);
    if chars.len() <= 1 {
        return false;
    }
    let mut i: usize = 1;
    while i < chars.len()
        invariant
            1 <= i <= chars.len(),
            chars@ == argument@,
            forall|k: int| 1 <= k < i ==> rsync_short(#[trigger] argument@[k]),
        decreases chars.len() - i,
    {
        let known: bool = matches!(
            chars[i],
            'a' | 'r' | 'l' | 'p' | 't' | 'g' | 'o' | 'D' | 'H' | 'A' | 'X' | 'z' | 's' | 'v' | 'q'
        );
        if !known {
            assert(!rsync_short(argument@[i as int]));
            return false;
        }
        i = i + 1;
    }
    true
}

/// Holds the arguments of an atomic rsync to the audited profile.
pub fn validate_atomic_rsync_args(args: &[String]) -> (r: Result<(), ConfigError>)
    ensures
        config_fault(r) == rsync_fault(text::views(args@)),
{
    let ghost all = text::views(args@);
    let mut index: usize = 0;
    assert(all.skip(0) == all);
    while index < args.len()
        invariant
            index <= args.len(),
            all == text::views(args@),
            rsync_fault(all) == rsync_fault(all.skip(index as int)),
        decreases args.len() - index,
    {
        let argument: &str = args[index].as_str();
        let ghost rest = all.skip(index as int);
        proof {
            assert(rest[0] == argument@);
            reveal_strlit("--");
            reveal_strlit("-");
        }
        let mut taken: usize = 1;
        if text::starts_with(argument, "--") {
            let next: Option<&str> = if index + 1 < args.len() {
                assert(rest[1] == args@[index + 1]@);
                Some(args[index + 1].as_str())
            } else {
                None
            };
            match long_option_step(argument, next) {
                Ok(count) => {
                    assert(rsync_step(rest) == Ok::<nat, Seq<char>>(count as nat));
                    taken = count;
                },
                Err(reason) => {
                    assert(rsync_step(rest) == Err::<nat, Seq<char>>(reason@));
                    return Err(ConfigError::AtomicRsyncOption { option: argument.to_owned(), reason });
                },
            }
        } else if text::starts_with(argument, "-") {
            if !short_options_known(argument) {
                return Err(
                    ConfigError::AtomicRsyncOption {
                        option: argument.to_owned(),
                        reason: "short option is not in the audited Atomic profile",
                    },
                );
            }
        } else {
            return Err(
                ConfigError::AtomicRsyncOption {
                    option: argument.to_owned(),
                    reason: "positional arguments are owned by LMT",
                },
            );
        }
        proof {
            assert(rest.skip(taken as int) == all.skip(index + taken));
        }
        index = index + taken;
    }
    assert(all.skip(index as int).len() == 0);
    Ok(())
}

/// The first placeholder fault of some texts.
pub open spec fn first_placeholder_fault(values: Seq<Seq<char>>) -> Option<Seq<char>>
    decreases values.len(),
{
    if values.len() == 0 {
        None
    } else if placeholder_fault(values[0]) is Some {
        placeholder_fault(values[0])
    } else {
        first_placeholder_fault(values.skip(1))
    }
}

/// The texts of a command: its program, its arguments and its working directory.
pub open spec fn command_texts(program: Seq<char>, args: Seq<Seq<char>>, cwd: Option<Seq<char>>) -> Seq<Seq<char>> {
    (seq![program] + args) + (match cwd {
        Some(directory) => seq![directory],
        None => Seq::empty(),
    })
}

/// Why what a run executes is refused.
pub open spec fn sync_fault(document: MirrorDocument) -> Option<ConfigFault> {
    match document.sync {
        SyncConfig::Command { program, args, cwd } => if program@.len() == 0 {
            Some(ConfigFault::EmptyProgram)
        } else {
            match first_placeholder_fault(command_texts(program@, text::views(args@), text::opt_view(cwd))) {
                Some(name) => Some(ConfigFault::UnsupportedPlaceholder(name)),
                None => None,
            }
        },
        SyncConfig::Rsync { source, args } => if source@.len() == 0 {
            Some(ConfigFault::EmptyRsyncSource)
        } else if document.mode() == PublicationMode::Atomic {
            rsync_fault(text::views(args@))
        } else {
            None
        },
    }
}

/// Why a document is refused: its target, what it executes, its limits, its schedule, in this order.
pub open spec fn document_fault(document: MirrorDocument) -> Option<ConfigFault> {
    if !path::is_safe_relative(document.mirror.target@) {
        Some(ConfigFault::UnsafeTarget(document.mirror.target@))
    } else if sync_fault(document) is Some {
        sync_fault(document)
    } else if document.run.timeout_seconds < 1 || document.run.timeout_seconds > 604_800 {
        Some(ConfigFault::InvalidTimeout)
    } else if document.run.max_attempts < 1 || document.run.max_attempts > 10 {
        Some(ConfigFault::InvalidMaxAttempts)
    } else if document.run.retry_delay_seconds > 86_400 {
        Some(ConfigFault::InvalidRetryDelay)
    } else {
        match document.schedule {
            Some(schedule) => match schedule.fault() {
                Some(message) => Some(ConfigFault::InvalidSchedule(message)),
                None => None,
            },
            None => None,
        }
    }
}

proof fn lemma_first_placeholder_fault(values: Seq<Seq<char>>, n: int)
    requires
        0 <= n <= values.len(),
        forall|i: int| 0 <= i < n ==> placeholder_fault(#[trigger] values[i]) is None,
    ensures
        first_placeholder_fault(values) == first_placeholder_fault(values.skip(n)),
    decreases n,
{
    if n > 0 {
        lemma_first_placeholder_fault(values, n - 1);
        assert(values.skip(n - 1)[0] == values[n - 1]);
        assert(values.skip(n - 1).skip(1) == values.skip(n));
    } else {
        assert(values.skip(0) == values);
    }
}

fn validate_command(program: &String, args: &Vec<String>, cwd: &Option<String>) -> (r: Result<(), ConfigError>)
    ensures
        config_fault(r) == (match first_placeholder_fault(
            command_texts(program@, text::views(args@), text::opt_view(*cwd)),
        ) {
            Some(name) => Some(ConfigFault::UnsupportedPlaceholder(name)),
            None => None,
        }),
{
    let ghost all = command_texts(program@, text::views(args@), text::opt_view(*cwd));
    assert(all.skip(0) == all);
    assert(all[0] == program@);
    if let Err(error) = validate_placeholders(program.as_str()) {
        return Err(error);
    }
    let mut i: usize = 0;
    while i < args.len()
        invariant
            i <= args.len(),
            all == command_texts(program@, text::views(args@), text::opt_view(*cwd)),
            forall|k: int| 0 <= k < i + 1 ==> placeholder_fault(#[trigger] all[k]) is None,
        decreases args.len() - i,
    {
        proof {
            assert(all[i + 1] == args@[i as int]@);
            lemma_first_placeholder_fault(all, i + 1);
            assert(all.skip(i + 1)[0] == all[i + 1]);
        }
        if let Err(error) = validate_placeholders(args[i].as_str()) {
            return Err(error);
        }
        i = i + 1;
    }
    proof {
        lemma_first_placeholder_fault(all, args.len() + 1);
    }
    match cwd {
        Some(directory) => {
            proof {
                assert(all.skip(args.len() + 1) == seq![directory@]);
                assert(first_placeholder_fault(seq![directory@].skip(1)) is None);
            }
            validate_placeholders(directory.as_str())
        },
        None => {
            assert(all.skip(args.len() + 1).len() == 0);
            Ok(())
        },
    }
}

/// Holds a document to the rules.
pub fn validate_document(document: &MirrorDocument) -> (r: Result<(), ConfigError>)
    ensures
        config_fault(r) == document_fault(*document),
{
    if !path::safe_relative(document.mirror.target.as_str()) {
        return Err(ConfigError::UnsafeTarget(document.mirror.target.clone()));
    }
    match &document.sync {
        SyncConfig::Command { program, args, cwd } => {
            if program.as_str().is_empty() {
                return Err(ConfigError::EmptyProgram);
            }
            if let Err(error) = validate_command(program, args, cwd) {
                return Err(error);
            }
        },
        SyncConfig::Rsync { source, args } => {
            if source.as_str().is_empty() {
                return Err(ConfigError::EmptyRsyncSource);
            }
            if document.publication_mode() == PublicationMode::Atomic {
                if let Err(error) = validate_atomic_rsync_args(args.as_slice()) {
                    return Err(error);
                }
            }
        },
    }
    if document.run.timeout_seconds < 1 || document.run.timeout_seconds > 604_800 {
        return Err(ConfigError::InvalidTimeout);
    }
    if document.run.max_attempts < 1 || document.run.max_attempts > 10 {
        return Err(ConfigError::InvalidMaxAttempts);
    }
    if document.run.retry_delay_seconds > 86_400 {
        return Err(ConfigError::InvalidRetryDelay);
    }
    if let Some(schedule) = &document.schedule {
        if let Err(message) = schedule.validate() {
            return Err(ConfigError::InvalidSchedule(message));
        }
    }
    Ok(())
}

/// The node and the stem that a bundle path names: `nodes/<node>/mirrors/<stem>.toml`.
pub open spec fn bundle_path(file_path: Seq<char>) -> Option<(Seq<char>, Seq<char>)> {
    let parts = path::components(file_path);
    if parts.len() == 4 && parts[0] == "nodes"@ && parts[2] == "mirrors"@ && path::is_entry(parts[3])
        && path::stem_and_suffix(parts[3]).1 == Some("toml"@) && super::ids::is_name(parts[1]) {
        Some((parts[1], path::stem_and_suffix(parts[3]).0))
    } else {
        None
    }
}

/// The node and the stem that a bundle path names.
pub fn locate_bundle_file(file_path: &str) -> (r: Option<(NodeName, String)>)
    ensures
        match r {
            Some((node, stem)) => bundle_path(file_path@) == Some((node@, stem@)),
            None => bundle_path(file_path@) is None,
        },
{
    let parts: Vec<String> = path::components_of(file_path);
    let ghost all = path::components(file_path@);
    assert(all.len() == parts@.len());
    if parts.len() != 4 {
        return None;
    }
    proof {
        assert(forall|k: int| 0 <= k < 4 ==> all[k] == (#[trigger] parts@[k])@);
        assert(all[0] == parts@[0]@ && all[1] == parts@[1]@ && all[2] == parts@[2]@ && all[3] == parts@[3]@);
    }
    if !text::same(parts[0].as_str(), "nodes") || !text::same(parts[2].as_str(), "mirrors") {
        return None;
    }
    if text::same(parts[3].as_str(), "/") || text::same(parts[3].as_str(), ".") || text::same(parts[3].as_str(), "..") {
        return None;
    }
    let (stem, suffix) = path::split_name(parts[3].as_str());
    if !text::same_opt(&suffix, "toml") {
        return None;
    }
    match NodeName::new(parts[1].as_str()) {
        Ok(node) => Some((node, stem)),
        Err(_) => None,
    }
}

/// The document with its schedule in canonical form.
pub open spec fn canonical_document(document: MirrorDocument, canonical: MirrorDocument) -> bool {
    &&& canonical.mirror == document.mirror
    &&& canonical.sync == document.sync
    &&& canonical.publication == document.publication
    &&& canonical.runner == document.runner
    &&& canonical.run == document.run
    &&& match document.schedule {
        Some(schedule) => canonical.schedule is Some && schedule.canonical_form(canonical.schedule->0),
        None => canonical.schedule is None,
    }
}

/// Why a bundle file is refused: its path, its TOML, its stem, its document, in this order.
pub open spec fn file_fault(file: BundleFile, parsed: Result<MirrorDocument, String>) -> Option<ConfigFault> {
    match bundle_path(file.path@) {
        None => Some(ConfigFault::InvalidPath { path: file.path@ }),
        Some((_, stem)) => match parsed {
            Err(message) => Some(ConfigFault::InvalidToml { path: file.path@, message: message@ }),
            Ok(document) => if stem != document.mirror.name@ {
                Some(ConfigFault::NameMismatch { stem, name: document.mirror.name@ })
            } else {
                document_fault(document)
            },
        },
    }
}

/// Takes a bundle file, given what reading its contents as a document came to: its owner and its
/// document with the schedule in canonical form.
pub fn canonicalize_file(file: &BundleFile, parsed: Result<MirrorDocument, String>) -> (r: Result<
    (NodeName, MirrorDocument),
    ConfigError,
>)
    ensures
        match r {
            Ok((node, document)) => {
                &&& file_fault(*file, parsed) is None
                &&& node@ == (bundle_path(file.path@)->0).0
                &&& canonical_document(parsed->Ok_0, document)
            },
            Err(error) => file_fault(*file, parsed) == Some(error@),
        },
{
    let (node, stem) = match locate_bundle_file(file.path.as_str()) {
        None => {
            return Err(ConfigError::InvalidPath { path: file.path.clone() });
        },
        Some(found) => found,
    };
    let document: MirrorDocument = match parsed {
        Err(message) => {
            return Err(ConfigError::InvalidToml { path: file.path.clone(), message });
        },
        Ok(value) => value,
    };
    if !text::same(stem.as_str(), document.mirror.name.as_str()) {
        return Err(ConfigError::NameMismatch { stem, name: document.mirror.name });
    }
    if let Err(error) = validate_document(&document) {
        return Err(error);
    }
    let canonical: Option<ScheduleConfig> = match document.schedule {
        None => None,
        Some(schedule) => match schedule.canonicalized() {
            Ok(value) => Some(value),
            Err(message) => {
                return Err(ConfigError::InvalidSchedule(message));
            },
        },
    };
    Ok(
        (
            node,
            MirrorDocument {
                mirror: document.mirror,
                schedule: canonical,
                sync: document.sync,
                publication: document.publication,
                runner: document.runner,
                run: document.run,
            },
        ),
    )
}

/// Seals a canonical document with its TOML form, given what writing that form came to, and with
/// the fingerprint of the form.
pub fn seal_mirror(
    file: &BundleFile,
    node: NodeName,
    document: MirrorDocument,
    written: Result<String, String>,
) -> (r: Result<CanonicalMirror, ConfigError>)
    ensures
        match written {
            Ok(form) => r is Ok && r->Ok_0.owner_node == node && r->Ok_0.document == document
                && r->Ok_0.canonical_toml == form && r->Ok_0.config_hash@ == schedule::fingerprint(encode_utf8(form@)),
            Err(message) => r is Err && r->Err_0@ == (ConfigFault::InvalidToml {
                path: file.path@,
                message: message@,
            }),
        },
{
    match written {
        Ok(canonical_toml) => {
            let config_hash: String = schedule::fingerprint_of(canonical_toml.as_str().as_bytes());
            Ok(CanonicalMirror { owner_node: node, document, canonical_toml, config_hash })
        },
        Err(message) => Err(ConfigError::InvalidToml { path: file.path.clone(), message }),
    }
}

/// A document that passed is safe: its target stays below the mirror root, and its limits hold.
pub proof fn law_accepted_documents_are_bounded(document: MirrorDocument)
    requires
        document_fault(document) is None,
    ensures
        path::is_safe_relative(document.mirror.target@),
        1 <= document.run.timeout_seconds <= 604_800,
        1 <= document.run.max_attempts <= 10,
        document.run.retry_delay_seconds <= 86_400,
        document.schedule is Some ==> document.schedule->0.fault() is None,
{
}

proof fn lemma_no_placeholder_fault(values: Seq<Seq<char>>)
    ensures
        first_placeholder_fault(values) is None <==> forall|i: int|
            0 <= i < values.len() ==> placeholder_fault(#[trigger] values[i]) is None,
    decreases values.len(),
{
    if values.len() > 0 {
        lemma_no_placeholder_fault(values.skip(1));
        if placeholder_fault(values[0]) is None {
            assert forall|i: int|
                0 <= i < values.len() && first_placeholder_fault(values) is None implies placeholder_fault(#[trigger] values[i]) is None by {
                if i > 0 {
                    assert(values.skip(1)[i - 1] == values[i]);
                }
            }
            assert forall|i: int|
                0 <= i < values.skip(1).len() && (forall|k: int|
                    0 <= k < values.len() ==> placeholder_fault(#[trigger] values[k]) is None) implies placeholder_fault(
                #[trigger] values.skip(1)[i],
            ) is None by {
                assert(values.skip(1)[i] == values[i + 1]);
            }
        }
    }
}

/// A document is accepted exactly where its target stays below the root, its limits are within bounds, its
/// schedule is one, and what it executes is named and asks for nothing unknown: for a command every text holds only
/// known placeholders, for a copy the source is named and, where it is published at once, every option is
/// known to be safe.
pub proof fn law_sound_documents_are_accepted(document: MirrorDocument)
    ensures
        document_fault(document) is None <==> {
            &&& path::is_safe_relative(document.mirror.target@)
            &&& 1 <= document.run.timeout_seconds <= 7 * 24 * 60 * 60
            &&& 1 <= document.run.max_attempts <= 10
            &&& document.run.retry_delay_seconds <= 24 * 60 * 60
            &&& document.schedule is Some ==> document.schedule->0.fault() is None
            &&& document.sync is Command ==> {
                &&& document.sync->program@.len() > 0
                &&& placeholder_fault(document.sync->program@) is None
                &&& forall|i: int|
                    0 <= i < document.sync->Command_args@.len() ==> placeholder_fault(
                        (#[trigger] document.sync->Command_args@[i])@,
                    ) is None
                &&& document.sync->cwd is Some ==> placeholder_fault(document.sync->cwd->0@) is None
            }
            &&& document.sync is Rsync ==> {
                &&& document.sync->source@.len() > 0
                &&& document.publication is Some && document.publication->0.mode == PublicationMode::Atomic ==> rsync_fault(
                    text::views(document.sync->Rsync_args@),
                ) is None
            }
        },
{
    if let SyncConfig::Command { program, args, cwd } = document.sync {
        let texts = command_texts(program@, text::views(args@), text::opt_view(cwd));
        lemma_no_placeholder_fault(texts);
        assert(texts[0] == program@);
        assert forall|i: int| 0 <= i < args@.len() implies (#[trigger] args@[i])@ == texts[i + 1] by {}
        if cwd is Some {
            assert(texts[args@.len() as int + 1] == cwd->0@);
        }
        if first_placeholder_fault(texts) is None {
            assert forall|i: int| 0 <= i < args@.len() implies placeholder_fault((#[trigger] args@[i])@) is None by {
                assert(placeholder_fault(texts[i + 1]) is None);
            }
        } else {
            let i = choose|i: int| 0 <= i < texts.len() && placeholder_fault(#[trigger] texts[i]) is Some;
            if 0 < i <= args@.len() {
                assert(texts[i] == args@[i - 1]@);
            }
        }
    }
}

/// Each fault is told as what it is, the target before what is executed, and that before the limits.
pub proof fn law_faults_are_told_as_they_are(document: MirrorDocument)
    ensures
        !path::is_safe_relative(document.mirror.target@) ==> document_fault(document) == Some(
            ConfigFault::UnsafeTarget(document.mirror.target@),
        ),
        document_fault(document) == Some(ConfigFault::InvalidTimeout) ==> document.run.timeout_seconds == 0
            || document.run.timeout_seconds > 604_800,
        document_fault(document) == Some(ConfigFault::InvalidMaxAttempts) ==> document.run.max_attempts == 0
            || document.run.max_attempts > 10,
        document_fault(document) == Some(ConfigFault::InvalidRetryDelay) ==> document.run.retry_delay_seconds > 86_400,
        document_fault(document) == Some(ConfigFault::EmptyProgram) ==> document.sync is Command
            && document.sync->program@.len() == 0,
        document_fault(document) == Some(ConfigFault::EmptyRsyncSource) ==> document.sync is Rsync
            && document.sync->source@.len() == 0,
        document_fault(document) is Some && document_fault(document)->0 is InvalidSchedule ==> document.schedule is Some
            && document.schedule->0.fault() == Some(document_fault(document)->0->InvalidSchedule_0),
{
    if document.sync is Rsync {
        lemma_rsync_fault_kind(text::views(document.sync->Rsync_args@));
    }
}

proof fn lemma_rsync_fault_kind(args: Seq<Seq<char>>)
    ensures
        rsync_fault(args) is Some ==> rsync_fault(args)->0 is AtomicRsyncOption,
    decreases args.len(),
{
    if args.len() > 0 && rsync_step(args) is Ok && 0 < rsync_step(args)->Ok_0 <= args.len() {
        lemma_rsync_fault_kind(args.skip(rsync_step(args)->Ok_0 as int));
    }
}

proof fn lemma_found_behind(name: Seq<char>, rest: Seq<char>, wanted: char)
    requires
        forall|i: int| 0 <= i < name.len() ==> #[trigger] name[i] != wanted,
    ensures
        text::find_char(name + seq![wanted] + rest, wanted) == Some(name.len() as int),
    decreases name.len(),
{
    let whole = name + seq![wanted] + rest;
    if name.len() > 0 {
        assert(whole[0] == name[0]);
        assert(whole.skip(1) =~= name.skip(1) + seq![wanted] + rest);
        assert forall|i: int| 0 <= i < name.skip(1).len() implies #[trigger] name.skip(1)[i] != wanted by {
            assert(name.skip(1)[i] == name[i + 1]);
        }
        lemma_found_behind(name.skip(1), rest, wanted);
    }
}

/// A text is looked over from the front: what is no brace says nothing, a name in braces is known where it
/// is one of the seven, and a brace that nothing opened is a fault.
pub proof fn law_placeholders_are_known_by_name(c: char, name: Seq<char>, rest: Seq<char>)
    requires
        forall|i: int| 0 <= i < name.len() ==> #[trigger] name[i] != '}',
    ensures
        c != '{' && c != '}' ==> placeholder_fault(seq![c] + rest) == placeholder_fault(rest),
        placeholder_fault(seq!['}'] + rest) is Some,
        ({
            let known = name == "mirror_name"@ || name == "run_id"@ || name == "attempt"@ || name == "node_name"@ || name
                == "mirror_root"@ || name == "target_dir"@ || name == "published_dir"@;
            &&& known ==> placeholder_fault(seq!['{'] + name + seq!['}'] + rest) == placeholder_fault(rest)
            &&& !known ==> placeholder_fault(seq!['{'] + name + seq!['}'] + rest) == Some(name)
        }),
        placeholder_fault(seq!['{'] + name) is Some,
        placeholder_fault(Seq::empty()) is None,
{
    assert((seq![c] + rest).skip(1) =~= rest);
    let whole = seq!['{'] + name + seq!['}'] + rest;
    let after = whole.skip(1);
    assert(after =~= name + seq!['}'] + rest);
    lemma_found_behind(name, rest, '}');
    assert(after.take(name.len() as int) =~= name);
    assert(after.skip(name.len() as int + 1) =~= rest);
    let open = seq!['{'] + name;
    assert(open.skip(1) =~= name);
    lemma_not_found(name, '}');
}

proof fn lemma_not_found(name: Seq<char>, wanted: char)
    requires
        forall|i: int| 0 <= i < name.len() ==> #[trigger] name[i] != wanted,
    ensures
        text::find_char(name, wanted) is None,
    decreases name.len(),
{
    if name.len() > 0 {
        assert forall|i: int| 0 <= i < name.skip(1).len() implies #[trigger] name.skip(1)[i] != wanted by {
            assert(name.skip(1)[i] == name[i + 1]);
        }
        lemma_not_found(name.skip(1), wanted);
    }
}

/// The options of a copy that is published at once are looked over one by one: what is no option is refused, a flag
/// that is known and an option with its value, joined or behind it, is passed over, and what rests on an older
/// copy or interferes with where the copy goes is refused.
pub proof fn law_copy_options_are_looked_over(args: Seq<Seq<char>>, name: Seq<char>, value: Seq<char>, rest: Seq<Seq<char>>)
    requires
        forall|i: int| 0 <= i < name.len() ==> #[trigger] name[i] != '=',
    ensures
        args.len() > 0 && !text::begins_with(args[0], "-"@) ==> rsync_fault(args) is Some,
        rsync_flag(name) ==> rsync_fault(seq!["--"@ + name] + rest) == rsync_fault(rest),
        rsync_flag(name) ==> rsync_fault(seq!["--"@ + (name + seq!['='] + value)] + rest) is Some,
        !rsync_flag(name) && rsync_value(name) && value.len() > 0 ==> rsync_fault(
            seq!["--"@ + (name + seq!['='] + value)] + rest,
        ) == rsync_fault(rest),
        !rsync_flag(name) && rsync_value(name) && !text::begins_with(value, "-"@) ==> rsync_fault(
            seq!["--"@ + name, value] + rest,
        ) == rsync_fault(rest),
        !rsync_flag(name) && !rsync_value(name) ==> rsync_fault(seq!["--"@ + name] + rest) is Some,
{
    reveal_strlit("--");
    reveal_strlit("-");
    let bare = "--"@ + name;
    let joined = "--"@ + (name + seq!['='] + value);
    assert(bare.skip(2) =~= name);
    assert(joined.skip(2) =~= name + seq!['='] + value);
    assert(bare.take(2) =~= "--"@);
    assert(joined.take(2) =~= "--"@);
    lemma_not_found(name, '=');
    lemma_found_behind(name, value, '=');
    assert((name + seq!['='] + value).take(name.len() as int) =~= name);
    assert((name + seq!['='] + value).skip(name.len() as int + 1) =~= value);
    assert((seq![bare] + rest).skip(1) =~= rest);
    assert((seq![joined] + rest).skip(1) =~= rest);
    assert((seq![bare, value] + rest).skip(2) =~= rest);
    if args.len() > 0 && text::begins_with(args[0], "--"@) {
        assert(args[0].take(1) =~= "-"@) by {
            assert(args[0].take(2)[0] == "--"@[0]);
            assert(args[0].take(1)[0] == args[0][0]);
        }
    }
}

/// A file is accepted where it stands in its place, can be read, names the mirror that it is named after, and
/// its document is accepted.
pub proof fn law_files_are_accepted_in_their_place(file: BundleFile, parsed: Result<MirrorDocument, String>)
    ensures
        file_fault(file, parsed) is None <==> bundle_path(file.path@) is Some && parsed is Ok && (bundle_path(file.path@)->0).1
            == parsed->Ok_0.mirror.name@ && document_fault(parsed->Ok_0) is None,
        bundle_path(file.path@) is None ==> file_fault(file, parsed) == Some(ConfigFault::InvalidPath { path: file.path@ }),
        bundle_path(file.path@) is Some ==> {
            let parts = path::components(file.path@);
            &&& parts.len() == 4
            &&& parts[0] == "nodes"@
            &&& parts[2] == "mirrors"@
            &&& parts[1] == (bundle_path(file.path@)->0).0
            &&& super::ids::is_name(parts[1])
        },
{
}

} // verus!
