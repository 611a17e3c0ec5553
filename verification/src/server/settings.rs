//! How the server is set up.
use crate::domain::schedule;
use crate::domain::schedule::outcome_view;
use crate::text;
use vstd::prelude::*;

verus! {

/// Where the time comes from.
pub trait Clock {
    /// Milliseconds since the epoch.
    fn now_ms(&self) -> i64;
}

/// How the server is set up.
#[derive(Debug, PartialEq, Eq)]
pub struct ServerConfig {
    pub bind: String,
    pub database_path: String,
    pub log_dir: String,
    pub operator_token: Option<String>,
    pub operator_token_file: Option<String>,
    pub offline_after_seconds: u64,
    pub agents: Vec<AgentCredential>,
    pub run_logs: Option<RunLogsConfig>,
    pub backup: Option<BackupConfig>,
    pub status: Option<StatusConfig>,
    pub logging: Option<LoggingConfig>,
}

/// Where backups are kept.
#[derive(Debug, PartialEq, Eq)]
pub struct BackupConfig {
    pub directory: String,
}

/// Who may see the status.
#[derive(Clone, Copy, Debug, PartialEq, Eq, Structural)]
pub struct StatusConfig {
    pub public: bool,
}

impl Default for StatusConfig {
    fn default() -> (r: Self)
        ensures
            !r.public,
    {
        StatusConfig { public: false }
    }
}

/// What the server itself writes to its log.
#[derive(Debug, PartialEq, Eq)]
pub struct LoggingConfig {
    pub level: String,
    pub format: LoggingFormat,
}

/// How the server writes its log.
#[derive(Clone, Copy, Debug, PartialEq, Eq, Structural)]
pub enum LoggingFormat {
    Json,
    Text,
}

/// A token that the configuration carries for the agent of a node.
#[derive(Debug, PartialEq, Eq)]
pub struct AgentCredential {
    pub node: String,
    pub token: String,
}

/// How long the logs of runs are kept.
#[derive(Debug, PartialEq, Eq)]
pub struct RunLogsConfig {
    pub retention: Option<String>,
    pub max_total_bytes: Option<u64>,
    pub maintenance_interval: String,
}

/// The level at which the server logs unless told otherwise.
pub fn logging_level_default() -> (r: String)
    ensures
        r@ == "info"@,
{
    "info".to_owned()
}

/// How the server writes its log unless told otherwise.
pub fn logging_format_default() -> (r: LoggingFormat)
    ensures
        r == LoggingFormat::Json,
{
    LoggingFormat::Json
}

/// How often logs are looked after unless told otherwise.
pub fn log_maintenance_default() -> (r: String)
    ensures
        r@ == "1h"@,
{
    "1h".to_owned()
}

/// After how many silent seconds a node counts as offline unless told otherwise.
pub fn offline_default() -> (r: u64)
    ensures
        r == 90,
{
    90
}

/// A span of time in seconds and nanoseconds.
#[derive(Clone, Copy, Debug, PartialEq, Eq, Structural)]
pub struct Span {
    pub seconds: u64,
    pub nanos: u32,
}

impl Span {
    /// The whole milliseconds of the span.
    pub open spec fn millis(self) -> nat {
        (self.seconds * 1000 + self.nanos as int / 1_000_000) as nat
    }

    /// The whole milliseconds of the span, held to what a moment can be written with.
    pub fn millis_i64(self) -> (r: i64)
        ensures
            r == (if self.millis() > i64::MAX {
                i64::MAX as nat
            } else {
                self.millis()
            }),
    {
        let millis: u128 = self.seconds as u128 * 1000 + (self.nanos / 1_000_000) as u128;
        if millis > i64::MAX as u128 {
            i64::MAX
        } else {
            millis as i64
        }
    }
}

impl Span {
    /// The whole milliseconds of the span in 64 bits with a sign, what goes beyond them cut off.
    pub open spec fn cut_millis(self) -> int {
        let low = self.millis() as int % 0x1_0000_0000_0000_0000;
        if low <= i64::MAX {
            low
        } else {
            low - 0x1_0000_0000_0000_0000
        }
    }

    /// The whole milliseconds of the span in 64 bits with a sign, what goes beyond them cut off.
    pub fn cut_millis_i64(self) -> (r: i64)
        ensures
            r == self.cut_millis(),
    {
        let millis: u128 = self.seconds as u128 * 1000 + (self.nanos / 1_000_000) as u128;
        let low: u128 = millis % 0x1_0000_0000_0000_0000;
        if low <= i64::MAX as u128 {
            low as i64
        } else {
            let missing: u128 = 0xffff_ffff_ffff_ffff - low;
            -(missing as i64) - 1
        }
    }
}

/// When logs of runs expire, and how often they are looked after.
#[derive(Clone, Copy, Debug, PartialEq, Eq, Structural)]
pub struct RunLogPolicy {
    pub retention: Option<Span>,
    pub max_total_bytes: Option<u64>,
    pub maintenance_interval: Span,
}

/// What a text is as a span of time.
pub open spec fn span_outcome(value: Seq<char>) -> Result<Span, Seq<char>> {
    match schedule::duration_outcome(value) {
        Ok((seconds, nanos)) => Ok(Span { seconds, nanos }),
        Err(message) => Err(message),
    }
}

/// The policy that the configuration of logs sets: none where it limits nothing, else one whose
/// spans are readable and whose maintenance interval is positive.
pub open spec fn policy_outcome(config: RunLogsConfig) -> Result<Option<RunLogPolicy>, Seq<char>> {
    if config.retention is None && config.max_total_bytes is None {
        Ok(None)
    } else if config.retention is Some && span_outcome(config.retention->0@) is Err {
        Err(span_outcome(config.retention->0@)->Err_0)
    } else {
        match span_outcome(config.maintenance_interval@) {
            Err(message) => Err(message),
            Ok(interval) => if interval.seconds == 0 && interval.nanos == 0 {
                Err("run_logs.maintenance_interval must be positive"@)
            } else {
                Ok(
                    Some(
                        RunLogPolicy {
                            retention: match config.retention {
                                Some(value) => Some(span_outcome(value@)->Ok_0),
                                None => None,
                            },
                            max_total_bytes: config.max_total_bytes,
                            maintenance_interval: interval,
                        },
                    ),
                )
            },
        }
    }
}

/// Tells whether the configuration itself holds credentials: those of agents, or the operator's token.
pub fn has_inline_credentials(agents: usize, operator_token: &Option<String>) -> (r: bool)
    ensures
        r == (agents > 0 || operator_token is Some),
{
    agents > 0 || operator_token.is_some()
}

/// Reads a span of time.
pub fn parse_span(value: &str) -> (r: Result<Span, String>)
    ensures
        outcome_view(r) == span_outcome(value@),
{
    match schedule::read_duration(value) {
        Ok((seconds, nanos)) => Ok(Span { seconds, nanos }),
        Err(message) => Err(message),
    }
}

/// Reads the policy for logs.
pub fn parse_run_log_policy(config: &RunLogsConfig) -> (r: Result<Option<RunLogPolicy>, String>)
    ensures
        outcome_view(r) == policy_outcome(*config),
{
    if config.retention.is_none() && config.max_total_bytes.is_none() {
        return Ok(None);
    }
    let retention: Option<Span> = match &config.retention {
        None => None,
        Some(value) => match parse_span(value.as_str()) {
            Ok(span) => Some(span),
            Err(message) => {
                return Err(message);
            },
        },
    };
    let maintenance_interval: Span = match parse_span(config.maintenance_interval.as_str()) {
        Ok(span) => span,
        Err(message) => {
            return Err(message);
        },
    };
    if maintenance_interval.seconds == 0 && maintenance_interval.nanos == 0 {
        return Err("run_logs.maintenance_interval must be positive".to_owned());
    }
    Ok(Some(RunLogPolicy { retention, max_total_bytes: config.max_total_bytes, maintenance_interval }))
}

/// The operator's token: of the file where there is one, else the inline one; without the white space
/// around it, and never empty.
pub open spec fn operator_token_outcome(file: Option<Seq<char>>, inline: Option<Seq<char>>) -> Result<
    Seq<char>,
    Seq<char>,
> {
    let chosen = if file is Some {
        file
    } else {
        inline
    };
    match chosen {
        None => Err("operator_token_file is required (deprecated operator_token is accepted for migration)"@),
        Some(value) => if text::trimmed(value).len() == 0 {
            Err("operator token is empty"@)
        } else {
            Ok(text::trimmed(value))
        },
    }
}

/// The operator's token, given what the token file holds.
pub fn load_operator_token(file: Option<&str>, inline: &Option<String>) -> (r: Result<String, String>)
    ensures
        match r {
            Ok(token) => operator_token_outcome(
                crate::server::services::borrowed_view(file),
                text::opt_view(*inline),
            ) == Ok::<Seq<char>, Seq<char>>(token@),
            Err(message) => operator_token_outcome(
                crate::server::services::borrowed_view(file),
                text::opt_view(*inline),
            ) == Err::<Seq<char>, Seq<char>>(message@),
        },
{
    let token: String = match file {
        Some(contents) => text::trim(contents),
        None => match inline {
            Some(value) => text::trim(value.as_str()),
            None => {
                return Err(
                    "operator_token_file is required (deprecated operator_token is accepted for migration)".to_owned(),
                );
            },
        },
    };
    if token.as_str().unicode_len() == 0 {
        return Err("operator token is empty".to_owned());
    }
    Ok(token)
}

/// What reading the operator's token anew comes to.
pub open spec fn reload_outcome(
    before: String,
    after: String,
    contents: Seq<char>,
    r: Result<(), String>,
) -> bool {
    &&& r is Ok <==> text::trimmed(contents).len() > 0
    &&& match r {
        Ok(()) => after@ == text::trimmed(contents),
        Err(message) => after == before && message@ == "operator token file is empty"@,
    }
}

/// The operator's token after its file is read again; an empty file leaves the working token in place.
pub fn reload_operator_token(current: &mut String, contents: &str) -> (r: Result<(), String>)
    ensures
        reload_outcome(*old(current), *final(current), contents@, r),
{
    let token: String = text::trim(contents);
    if token.as_str().unicode_len() == 0 {
        return Err("operator token file is empty".to_owned());
    }
    *current = token;
    Ok(())
}

/// The longest wait of the scheduler, in milliseconds.
pub const SCHEDULER_WAIT_MS: u64 = 30_000;

/// How long to wait for what comes next.
pub open spec fn is_wait(earliest: Option<i64>, now: i64, r: u64) -> bool {
    r == (if earliest is Some && now < earliest->0 < now + SCHEDULER_WAIT_MS {
        (earliest->0 - now) as u64
    } else {
        SCHEDULER_WAIT_MS
    })
}

/// How long the scheduler waits: until the next deadline, at most half a minute.
pub fn scheduler_wait_ms(earliest: Option<i64>, now: i64) -> (r: u64)
    ensures
        is_wait(earliest, now, r),
{
    match earliest {
        Some(deadline) => {
            let left: i128 = deadline as i128 - now as i128;
            if 0 < left && left < SCHEDULER_WAIT_MS as i128 {
                left as u64
            } else {
                SCHEDULER_WAIT_MS
            }
        },
        None => SCHEDULER_WAIT_MS,
    }
}

/// Whether there may be something to hand out.
pub open spec fn is_waking(evaluated: u64, earliest: Option<i64>, now: i64, r: bool) -> bool {
    r == (evaluated > 0 || (earliest is Some && earliest->0 <= now))
}

/// True when the agents that wait for work are to be woken: something was due, or a deadline has
/// passed.
pub fn scheduler_wakes(evaluated: u64, earliest: Option<i64>, now: i64) -> (r: bool)
    ensures
        is_waking(evaluated, earliest, now, r),
{
    evaluated > 0 || match earliest {
        Some(deadline) => deadline <= now,
        None => false,
    }
}

/// The scheduler waits half a minute at most, and never past a moment that is still to come: it wakes
/// just then. It has something to hand out where something was looked at or the moment has come.
pub proof fn law_schedulers_wake_in_time(earliest: Option<i64>, now: i64, evaluated: u64, wait: u64, wakes: bool)
    requires
        is_wait(earliest, now, wait),
        is_waking(evaluated, earliest, now, wakes),
    ensures
        0 < wait <= 30_000,
        earliest is Some && earliest->0 > now ==> now + wait <= earliest->0,
        earliest is Some && earliest->0 > now && earliest->0 - now <= 30_000 ==> now + wait == earliest->0,
        earliest is None || earliest->0 - now >= 30_000 ==> wait == 30_000,
        evaluated > 0 ==> wakes,
        earliest is Some && earliest->0 <= now ==> wakes,
        evaluated == 0 && (earliest is None || earliest->0 > now) ==> !wakes,
{
}

/// A token that is read anew takes the place of the old one where it says anything, and else changes
/// nothing.
pub proof fn law_tokens_are_replaced_by_what_is_written(
    before: String,
    after: String,
    contents: Seq<char>,
    r: Result<(), String>,
)
    requires
        reload_outcome(before, after, contents, r),
    ensures
        r is Ok ==> after@ == text::trimmed(contents) && after@.len() > 0,
        r is Err <==> text::trimmed(contents).len() == 0,
        r is Err ==> after == before,
{
}

/// The operator's token is the one in the file where a file is named, else the one in the configuration;
/// it is never empty.
pub proof fn law_token_files_come_first(file: Option<Seq<char>>, inline: Option<Seq<char>>)
    ensures
        file is Some && text::trimmed(file->0).len() > 0 ==> operator_token_outcome(file, inline) == Ok::<Seq<char>, Seq<char>>(
            text::trimmed(file->0),
        ),
        file is Some ==> operator_token_outcome(file, inline) == operator_token_outcome(file, None),
        file is None && inline is Some && text::trimmed(inline->0).len() > 0 ==> operator_token_outcome(file, inline) == Ok::<
            Seq<char>,
            Seq<char>,
        >(text::trimmed(inline->0)),
        file is None && inline is None ==> operator_token_outcome(file, inline) is Err,
        operator_token_outcome(file, inline) is Ok ==> operator_token_outcome(file, inline)->Ok_0.len() > 0,
{
}

/// Logs are kept for good where neither an age nor a size is given; else by the age and the size that
/// are, and looked over at an interval that is more than nothing.
pub proof fn law_logs_are_kept_by_what_is_given(config: RunLogsConfig)
    ensures
        policy_outcome(config) == Ok::<Option<RunLogPolicy>, Seq<char>>(None) <==> config.retention is None
            && config.max_total_bytes is None,
        policy_outcome(config) is Ok && policy_outcome(config)->Ok_0 is Some ==> {
            let policy = policy_outcome(config)->Ok_0->0;
            &&& policy.max_total_bytes == config.max_total_bytes
            &&& policy.retention is Some <==> config.retention is Some
            &&& policy.retention is Some ==> span_outcome(config.retention->0@) == Ok::<Span, Seq<char>>(policy.retention->0)
            &&& span_outcome(config.maintenance_interval@) == Ok::<Span, Seq<char>>(policy.maintenance_interval)
            &&& policy.maintenance_interval.seconds > 0 || policy.maintenance_interval.nanos > 0
        },
        policy_outcome(config) is Err ==> (config.retention is Some && span_outcome(config.retention->0@) is Err) || span_outcome(
            config.maintenance_interval@,
        ) is Err || span_outcome(config.maintenance_interval@)->Ok_0 == (Span { seconds: 0, nanos: 0 }),
{
}

/// A span has a thousand thousandths to the second, and what is less than one is left out.
pub proof fn law_spans_are_counted_in_thousandths(span: Span, millis: i64, cut: i64)
    requires
        span.nanos < 1_000_000_000,
        millis == (if span.millis() > i64::MAX {
            i64::MAX as nat
        } else {
            span.millis()
        }),
        cut == span.cut_millis(),
    ensures
        span.millis() * 1_000_000 <= span.seconds * 1_000_000_000 + span.nanos < (span.millis() + 1) * 1_000_000,
        span.millis() <= i64::MAX ==> millis == span.millis() && cut == span.millis(),
{
}

} // verus!
