//! What the server shows to a collector of metrics.
use super::observation::capped;
use super::observation::PublicationObservation;
use super::settings::Span;
use crate::protocol::PublicationAdmissionBlockReason;
use crate::protocol::PublicationHealth;
use crate::store::queries::MirrorOperationalRecord;
use crate::store::queries::OperationalCounts;
use crate::store::tables::NodeRecord;
use crate::text;
use vstd::prelude::*;

verus! {

/// What the server has counted since it started.
#[derive(Clone, Copy, Debug, PartialEq, Eq, Structural)]
pub struct AppMetrics {
    pub polls: u64,
    pub events: u64,
    pub uploaded_bytes: u64,
    pub log_failures: u64,
    pub scheduler_interval_due: u64,
    pub scheduler_interval_skipped: u64,
    pub scheduler_cron_due: u64,
    pub scheduler_cron_skipped: u64,
    pub retries_scheduled: u64,
    pub attempts_succeeded: u64,
    pub attempts_failed: u64,
    pub attempts_timed_out: u64,
    pub attempts_cancelled: u64,
    pub attempts_rejected: u64,
    pub attempts_interrupted: u64,
    pub cancellations_immediate: u64,
    pub cancellations_dispatched: u64,
    pub logs_expired: u64,
    pub backup_last_success_seconds: u64,
    pub backup_failures: u64,
    pub auth_failures: u64,
}

impl AppMetrics {
    /// Nothing counted yet.
    pub open spec fn zero() -> AppMetrics {
        AppMetrics {
            polls: 0,
            events: 0,
            uploaded_bytes: 0,
            log_failures: 0,
            scheduler_interval_due: 0,
            scheduler_interval_skipped: 0,
            scheduler_cron_due: 0,
            scheduler_cron_skipped: 0,
            retries_scheduled: 0,
            attempts_succeeded: 0,
            attempts_failed: 0,
            attempts_timed_out: 0,
            attempts_cancelled: 0,
            attempts_rejected: 0,
            attempts_interrupted: 0,
            cancellations_immediate: 0,
            cancellations_dispatched: 0,
            logs_expired: 0,
            backup_last_success_seconds: 0,
            backup_failures: 0,
            auth_failures: 0,
        }
    }
}

impl Default for AppMetrics {
    fn default() -> (r: Self)
        ensures
            r == AppMetrics::zero(),
    {
        AppMetrics {
            polls: 0,
            events: 0,
            uploaded_bytes: 0,
            log_failures: 0,
            scheduler_interval_due: 0,
            scheduler_interval_skipped: 0,
            scheduler_cron_due: 0,
            scheduler_cron_skipped: 0,
            retries_scheduled: 0,
            attempts_succeeded: 0,
            attempts_failed: 0,
            attempts_timed_out: 0,
            attempts_cancelled: 0,
            attempts_rejected: 0,
            attempts_interrupted: 0,
            cancellations_immediate: 0,
            cancellations_dispatched: 0,
            logs_expired: 0,
            backup_last_success_seconds: 0,
            backup_failures: 0,
            auth_failures: 0,
        }
    }
}

/// A measured value under its name.
pub struct Sample {
    pub name: String,
    pub value: i128,
}

/// The line for a sample.
pub open spec fn sample_line(sample: (Seq<char>, int)) -> Seq<char> {
    sample.0 + " "@ + text::signed_decimal(sample.1) + "\n"@
}

/// The lines for some samples.
pub open spec fn rendered(samples: Seq<(Seq<char>, int)>) -> Seq<char>
    decreases samples.len(),
{
    if samples.len() == 0 {
        Seq::empty()
    } else {
        rendered(samples.drop_last()) + sample_line(samples.last())
    }
}

/// What some samples hold.
pub open spec fn sample_views(samples: Seq<Sample>) -> Seq<(Seq<char>, int)> {
    samples.map_values(|sample: Sample| (sample.name@, sample.value as int))
}

/// A number as samples hold it.
pub open spec fn within_values(value: int) -> bool {
    -18_446_744_073_709_551_616 < value < 18_446_744_073_709_551_616
}

fn number_text(value: i128) -> (r: String)
    requires
        within_values(value as int),
    ensures
        r@ == text::signed_decimal(value as int),
{
    proof {
        reveal_strlit("-");
    }
    if value < 0 {
        let size: u64 = (-value) as u64;
        text::join2("-", text::decimal_text(size).as_str())
    } else {
        text::decimal_text(value as u64)
    }
}

/// Writes the lines for some samples behind a text.
pub fn append_samples(body: &mut String, samples: &Vec<Sample>)
    requires
        forall|i: int| 0 <= i < samples@.len() ==> within_values((#[trigger] samples@[i]).value as int),
    ensures
        final(body)@ == old(body)@ + rendered(sample_views(samples@)),
{
    let ghost start = body@;
    let ghost all = sample_views(samples@);
    let mut i: usize = 0;
    assert(all.take(0) =~= Seq::empty());
    assert(body@ == start + rendered(all.take(0)));
    while i < samples.len()
        invariant
            i <= samples.len(),
            all == sample_views(samples@),
            forall|k: int| 0 <= k < samples@.len() ==> within_values((#[trigger] samples@[k]).value as int),
            body@ == start + rendered(all.take(i as int)),
        decreases samples.len() - i,
    {
        assert(all.take(i + 1).drop_last() == all.take(i as int));
        assert(all.take(i + 1).last() == (samples@[i as int].name@, samples@[i as int].value as int));
        let line: String = text::join4(samples[i].name.as_str(), " ", number_text(samples[i].value).as_str(), "\n");
        body.append(line.as_str());
        assert(body@ == start + rendered(all.take(i + 1)));
        i = i + 1;
    }
    assert(all.take(all.len() as int) == all);
}

/// A text as the value of a label: backslashes, quotes and line ends are escaped.
pub open spec fn label(value: Seq<char>) -> Seq<char> {
    text::replaced(text::replaced(text::replaced(value, "\\"@, "\\\\"@), "\""@, "\\\""@), "\n"@, "\\n"@)
}

/// A text as the value of a label.
pub fn prometheus_label(value: &str) -> (r: String)
    ensures
        r@ == label(value@),
{
    proof {
        reveal_strlit("\\");
        reveal_strlit("\"");
        reveal_strlit("\n");
    }
    let first: String = text::replace_all(value, "\\", "\\\\");
    let second: String = text::replace_all(first.as_str(), "\"", "\\\"");
    text::replace_all(second.as_str(), "\n", "\\n")
}

/// A difference of moments, held to what a moment can be written with.
pub open spec fn elapsed(now: i64, since: i64) -> int {
    if now - since > i64::MAX {
        i64::MAX as int
    } else if now - since < i64::MIN {
        i64::MIN as int
    } else {
        now - since
    }
}

/// A span in whole milliseconds, held to what a moment can be written with.
pub open spec fn span_ms(span: Span) -> int {
    if span.millis() > i64::MAX {
        i64::MAX as int
    } else {
        span.millis() as int
    }
}

/// True when a node was seen lately enough.
pub open spec fn is_online(last_seen_at_ms: Option<i64>, now: i64, offline_after: Span) -> bool {
    last_seen_at_ms is Some && elapsed(now, last_seen_at_ms->0) <= span_ms(offline_after)
}

/// The difference of two moments.
pub fn elapsed_ms(now: i64, since: i64) -> (r: i64)
    ensures
        r == elapsed(now, since),
{
    match now.checked_sub(since) {
        Some(span) => span,
        None => if now < since {
            i64::MIN
        } else {
            i64::MAX
        },
    }
}

/// True when a node was seen lately enough.
pub fn online(last_seen_at_ms: Option<i64>, now: i64, offline_after: Span) -> (r: bool)
    ensures
        r == is_online(last_seen_at_ms, now, offline_after),
{
    match last_seen_at_ms {
        Some(seen) => elapsed_ms(now, seen) <= offline_after.millis_i64(),
        None => false,
    }
}

/// How many of some nodes are online.
pub open spec fn count_online(nodes: Seq<NodeRecord>, now: i64, offline_after: Span) -> nat
    decreases nodes.len(),
{
    if nodes.len() == 0 {
        0
    } else {
        count_online(nodes.drop_last(), now, offline_after) + (if is_online(
            nodes.last().last_seen_at_ms,
            now,
            offline_after,
        ) {
            1nat
        } else {
            0nat
        })
    }
}

fn nodes_online(nodes: &Vec<NodeRecord>, now: i64, offline_after: Span) -> (r: u64)
    ensures
        r == count_online(nodes@, now, offline_after),
{
    let mut count: u64 = 0;
    let mut i: usize = 0;
    while i < nodes.len()
        invariant
            i <= nodes.len(),
            count == count_online(nodes@.take(i as int), now, offline_after),
            count <= i,
        decreases nodes.len() - i,
    {
        assert(nodes@.take(i + 1).drop_last() == nodes@.take(i as int));
        if online(nodes[i].last_seen_at_ms, now, offline_after) {
            count = count + 1;
        }
        i = i + 1;
    }
    assert(nodes@.take(nodes@.len() as int) == nodes@);
    count
}

/// The samples of the server itself.
pub open spec fn server_samples(counts: OperationalCounts, online: nat, metrics: AppMetrics) -> Seq<(Seq<char>, int)> {
    seq![
        ("lmt_up"@, 1),
        ("lmt_runs_pending"@, counts.pending_runs as int),
        ("lmt_runs_running"@, counts.running_runs as int),
        ("lmt_mirrors_due"@, counts.due_mirrors as int),
        ("lmt_nodes_online"@, online as int),
        (
            "lmt_scheduler_occurrences_total{kind=\"interval\",outcome=\"due\"}"@,
            metrics.scheduler_interval_due as int,
        ),
        (
            "lmt_scheduler_occurrences_total{kind=\"interval\",outcome=\"skipped\"}"@,
            metrics.scheduler_interval_skipped as int,
        ),
        ("lmt_scheduler_occurrences_total{kind=\"cron\",outcome=\"due\"}"@, metrics.scheduler_cron_due as int),
        ("lmt_scheduler_occurrences_total{kind=\"cron\",outcome=\"skipped\"}"@, metrics.scheduler_cron_skipped as int),
        ("lmt_retries_scheduled_total{reason=\"retryable_failure\"}"@, metrics.retries_scheduled as int),
        ("lmt_attempts_terminal_total{state=\"succeeded\"}"@, metrics.attempts_succeeded as int),
        ("lmt_attempts_terminal_total{state=\"failed\"}"@, metrics.attempts_failed as int),
        ("lmt_attempts_terminal_total{state=\"timed_out\"}"@, metrics.attempts_timed_out as int),
        ("lmt_attempts_terminal_total{state=\"cancelled\"}"@, metrics.attempts_cancelled as int),
        ("lmt_attempts_terminal_total{state=\"rejected\"}"@, metrics.attempts_rejected as int),
        ("lmt_attempts_terminal_total{state=\"interrupted\"}"@, metrics.attempts_interrupted as int),
        ("lmt_cancellations_total{outcome=\"immediate\"}"@, metrics.cancellations_immediate as int),
        ("lmt_cancellations_total{outcome=\"dispatched\"}"@, metrics.cancellations_dispatched as int),
        ("lmt_agent_polls_total"@, metrics.polls as int),
        ("lmt_attempt_events_total"@, metrics.events as int),
        ("lmt_log_uploaded_bytes_total"@, metrics.uploaded_bytes as int),
        ("lmt_log_upload_failures_total"@, metrics.log_failures as int),
        ("lmt_run_logs_stored_bytes"@, counts.stored_log_bytes as int),
        ("lmt_backup_last_success_timestamp_seconds"@, metrics.backup_last_success_seconds as int),
        ("lmt_backup_failures_total"@, metrics.backup_failures as int),
        ("lmt_log_expired_total"@, metrics.logs_expired as int),
        ("lmt_auth_failures_total"@, metrics.auth_failures as int),
    ]
}

fn sample(name: &str, value: u64) -> (r: Sample)
    ensures
        r.name@ == name@,
        r.value == value,
{
    Sample { name: name.to_owned(), value: value as i128 }
}

fn server_sample_list(counts: OperationalCounts, online_count: u64, metrics: AppMetrics) -> (r: Vec<Sample>)
    ensures
        sample_views(r@) == server_samples(counts, online_count as nat, metrics),
        forall|i: int| 0 <= i < r@.len() ==> within_values((#[trigger] r@[i]).value as int),
{
    let r: Vec<Sample> = vec![
        sample("lmt_up", 1),
        sample("lmt_runs_pending", counts.pending_runs),
        sample("lmt_runs_running", counts.running_runs),
        sample("lmt_mirrors_due", counts.due_mirrors),
        sample("lmt_nodes_online", online_count),
        sample(
            "lmt_scheduler_occurrences_total{kind=\"interval\",outcome=\"due\"}",
            metrics.scheduler_interval_due,
        ),
        sample(
            "lmt_scheduler_occurrences_total{kind=\"interval\",outcome=\"skipped\"}",
            metrics.scheduler_interval_skipped,
        ),
        sample("lmt_scheduler_occurrences_total{kind=\"cron\",outcome=\"due\"}", metrics.scheduler_cron_due),
        sample("lmt_scheduler_occurrences_total{kind=\"cron\",outcome=\"skipped\"}", metrics.scheduler_cron_skipped),
        sample("lmt_retries_scheduled_total{reason=\"retryable_failure\"}", metrics.retries_scheduled),
        sample("lmt_attempts_terminal_total{state=\"succeeded\"}", metrics.attempts_succeeded),
        sample("lmt_attempts_terminal_total{state=\"failed\"}", metrics.attempts_failed),
        sample("lmt_attempts_terminal_total{state=\"timed_out\"}", metrics.attempts_timed_out),
        sample("lmt_attempts_terminal_total{state=\"cancelled\"}", metrics.attempts_cancelled),
        sample("lmt_attempts_terminal_total{state=\"rejected\"}", metrics.attempts_rejected),
        sample("lmt_attempts_terminal_total{state=\"interrupted\"}", metrics.attempts_interrupted),
        sample("lmt_cancellations_total{outcome=\"immediate\"}", metrics.cancellations_immediate),
        sample("lmt_cancellations_total{outcome=\"dispatched\"}", metrics.cancellations_dispatched),
        sample("lmt_agent_polls_total", metrics.polls),
        sample("lmt_attempt_events_total", metrics.events),
        sample("lmt_log_uploaded_bytes_total", metrics.uploaded_bytes),
        sample("lmt_log_upload_failures_total", metrics.log_failures),
        sample("lmt_run_logs_stored_bytes", counts.stored_log_bytes),
        sample("lmt_backup_last_success_timestamp_seconds", metrics.backup_last_success_seconds),
        sample("lmt_backup_failures_total", metrics.backup_failures),
        sample("lmt_log_expired_total", metrics.logs_expired),
        sample("lmt_auth_failures_total", metrics.auth_failures),
    ];
    assert(sample_views(r@) =~= server_samples(counts, online_count as nat, metrics));
    r
}

/// The counters of publication.
#[derive(Clone, Copy, Debug, PartialEq, Eq, Structural)]
pub enum HealthCounter {
    CommitsSucceeded,
    CommitsFailed,
    DurabilityMilliseconds,
    DurabilitySamples,
    PreflightRejections,
    GcFailures,
}

/// A counter of publication.
pub open spec fn counter(health: PublicationHealth, which: HealthCounter) -> u64 {
    match which {
        HealthCounter::CommitsSucceeded => health.commits_succeeded_total,
        HealthCounter::CommitsFailed => health.commits_failed_total,
        HealthCounter::DurabilityMilliseconds => health.visibility_to_durability_milliseconds_total,
        HealthCounter::DurabilitySamples => health.visibility_to_durability_samples_total,
        HealthCounter::PreflightRejections => health.preflight_rejections_total,
        HealthCounter::GcFailures => health.gc_failures_total,
    }
}

fn counter_of(health: PublicationHealth, which: HealthCounter) -> (r: u64)
    ensures
        r == counter(health, which),
{
    match which {
        HealthCounter::CommitsSucceeded => health.commits_succeeded_total,
        HealthCounter::CommitsFailed => health.commits_failed_total,
        HealthCounter::DurabilityMilliseconds => health.visibility_to_durability_milliseconds_total,
        HealthCounter::DurabilitySamples => health.visibility_to_durability_samples_total,
        HealthCounter::PreflightRejections => health.preflight_rejections_total,
        HealthCounter::GcFailures => health.gc_failures_total,
    }
}

/// A counter summed over the nodes.
pub open spec fn summed(observations: Seq<(String, PublicationObservation)>, which: HealthCounter) -> nat
    decreases observations.len(),
{
    if observations.len() == 0 {
        0
    } else {
        summed(observations.drop_last(), which) + counter(observations.last().1.cumulative, which) as nat
    }
}

/// How many nodes can publish at once.
pub open spec fn count_capable(observations: Seq<(String, PublicationObservation)>) -> nat
    decreases observations.len(),
{
    if observations.len() == 0 {
        0
    } else {
        count_capable(observations.drop_last()) + (if observations.last().1.atomic_capable {
            1nat
        } else {
            0nat
        })
    }
}

fn sum(observations: &Vec<(String, PublicationObservation)>, which: HealthCounter) -> (r: u64)
    ensures
        r == capped(summed(observations@, which)),
{
    let mut total: u64 = 0;
    let mut i: usize = 0;
    while i < observations.len()
        invariant
            i <= observations.len(),
            total == capped(summed(observations@.take(i as int), which)),
        decreases observations.len() - i,
    {
        assert(observations@.take(i + 1).drop_last() == observations@.take(i as int));
        total = total.saturating_add(counter_of(observations[i].1.cumulative, which));
        i = i + 1;
    }
    assert(observations@.take(observations@.len() as int) == observations@);
    total
}

fn capable(observations: &Vec<(String, PublicationObservation)>) -> (r: u64)
    ensures
        r == count_capable(observations@),
{
    let mut count: u64 = 0;
    let mut i: usize = 0;
    while i < observations.len()
        invariant
            i <= observations.len(),
            count == count_capable(observations@.take(i as int)),
            count <= i,
        decreases observations.len() - i,
    {
        assert(observations@.take(i + 1).drop_last() == observations@.take(i as int));
        if observations[i].1.atomic_capable {
            count = count + 1;
        }
        i = i + 1;
    }
    assert(observations@.take(observations@.len() as int) == observations@);
    count
}

/// The word for a reason why an agent takes no atomic work.
pub open spec fn admission_reason(reason: PublicationAdmissionBlockReason) -> Seq<char> {
    match reason {
        PublicationAdmissionBlockReason::Fence => "fence"@,
        PublicationAdmissionBlockReason::Recovery => "recovery"@,
        PublicationAdmissionBlockReason::GenerationBound => "generation_bound"@,
        PublicationAdmissionBlockReason::FreeSpaceReserve => "free_space_reserve"@,
        PublicationAdmissionBlockReason::GcFailure => "gc_failure"@,
        PublicationAdmissionBlockReason::InvalidLocalState => "invalid_local_state"@,
    }
}

/// The word for a reason why an agent takes no atomic work.
pub fn publication_admission_reason(reason: PublicationAdmissionBlockReason) -> (r: &'static str)
    ensures
        r@ == admission_reason(reason),
{
    match reason {
        PublicationAdmissionBlockReason::Fence => "fence",
        PublicationAdmissionBlockReason::Recovery => "recovery",
        PublicationAdmissionBlockReason::GenerationBound => "generation_bound",
        PublicationAdmissionBlockReason::FreeSpaceReserve => "free_space_reserve",
        PublicationAdmissionBlockReason::GcFailure => "gc_failure",
        PublicationAdmissionBlockReason::InvalidLocalState => "invalid_local_state",
    }
}

/// The name of a sample with a label for a node.
pub open spec fn node_name(name: Seq<char>, node: Seq<char>) -> Seq<char> {
    name + "{node=\""@ + label(node) + "\"}"@
}

/// The samples of publication on a node.
pub open spec fn node_samples(node: Seq<char>, health: PublicationHealth) -> Seq<(Seq<char>, int)> {
    (match health.publication_root_free_bytes {
        Some(bytes) => seq![(node_name("lmt_agent_publication_root_free_bytes"@, node), bytes as int)],
        None => Seq::empty(),
    }) + seq![
        (
            node_name("lmt_agent_publication_gc_backlog_generations"@, node),
            health.gc_backlog_generations as int,
        ),
        (
            node_name("lmt_agent_publication_degraded"@, node),
            if health.degraded {
                1int
            } else {
                0
            },
        ),
        (node_name("lmt_agent_publication_fenced_records"@, node), health.fenced_records as int),
        (node_name("lmt_agent_publication_recovery_records"@, node), health.recovery_records as int),
    ] + (match health.admission_block_reason {
        Some(reason) => seq![
            (
                "lmt_agent_publication_admission_blocked{node=\""@ + label(node) + "\",reason=\""@ + admission_reason(
                    reason,
                ) + "\"}"@,
                1int,
            ),
        ],
        None => Seq::empty(),
    })
}

/// The samples of publication on some nodes.
pub open spec fn all_node_samples(observations: Seq<(String, PublicationObservation)>) -> Seq<(Seq<char>, int)>
    decreases observations.len(),
{
    if observations.len() == 0 {
        Seq::empty()
    } else {
        all_node_samples(observations.drop_last()) + node_samples(
            observations.last().0@,
            observations.last().1.cumulative,
        )
    }
}

/// The samples of publication as a whole.
pub open spec fn publication_totals(observations: Seq<(String, PublicationObservation)>) -> Seq<(Seq<char>, int)> {
    seq![
        ("lmt_agents_atomic_publication_capable"@, count_capable(observations) as int),
        (
            "lmt_publication_commits_total{outcome=\"succeeded\"}"@,
            capped(summed(observations, HealthCounter::CommitsSucceeded)) as int,
        ),
        (
            "lmt_publication_commits_total{outcome=\"failed\"}"@,
            capped(summed(observations, HealthCounter::CommitsFailed)) as int,
        ),
        (
            "lmt_publication_visibility_to_durability_milliseconds_total"@,
            capped(summed(observations, HealthCounter::DurabilityMilliseconds)) as int,
        ),
        (
            "lmt_publication_visibility_to_durability_samples_total"@,
            capped(summed(observations, HealthCounter::DurabilitySamples)) as int,
        ),
        (
            "lmt_publication_preflight_rejections_total"@,
            capped(summed(observations, HealthCounter::PreflightRejections)) as int,
        ),
        (
            "lmt_publication_gc_failures_total"@,
            capped(summed(observations, HealthCounter::GcFailures)) as int,
        ),
    ]
}

/// Two lots of samples are rendered one after the other.
pub proof fn lemma_rendered_joined(first: Seq<(Seq<char>, int)>, second: Seq<(Seq<char>, int)>)
    ensures
        rendered(first + second) == rendered(first) + rendered(second),
    decreases second.len(),
{
    if second.len() == 0 {
        assert(first + second == first);
    } else {
        lemma_rendered_joined(first, second.drop_last());
        assert((first + second).drop_last() == first + second.drop_last());
    }
}

fn node_sample(name: &str, node: &str, value: u64) -> (r: Sample)
    ensures
        r.name@ == node_name(name@, node@),
        r.value == value,
{
    Sample { name: text::join4(name, "{node=\"", prometheus_label(node).as_str(), "\"}"), value: value as i128 }
}

fn node_sample_list(node: &str, health: PublicationHealth) -> (r: Vec<Sample>)
    ensures
        sample_views(r@) == node_samples(node@, health),
        forall|i: int| 0 <= i < r@.len() ==> within_values((#[trigger] r@[i]).value as int),
{
    let mut r: Vec<Sample> = Vec::new();
    if let Some(bytes) = health.publication_root_free_bytes {
        r.push(node_sample("lmt_agent_publication_root_free_bytes", node, bytes));
    }
    r.push(
        node_sample("lmt_agent_publication_gc_backlog_generations", node, health.gc_backlog_generations as u64),
    );
    r.push(
        node_sample(
            "lmt_agent_publication_degraded",
            node,
            if health.degraded {
                1
            } else {
                0
            },
        ),
    );
    r.push(node_sample("lmt_agent_publication_fenced_records", node, health.fenced_records as u64));
    r.push(node_sample("lmt_agent_publication_recovery_records", node, health.recovery_records as u64));
    if let Some(reason) = health.admission_block_reason {
        r.push(
            Sample {
                name: text::join5(
                    "lmt_agent_publication_admission_blocked{node=\"",
                    prometheus_label(node).as_str(),
                    "\",reason=\"",
                    publication_admission_reason(reason),
                    "\"}",
                ),
                value: 1,
            },
        );
    }
    assert(sample_views(r@) =~= node_samples(node@, health));
    r
}

/// Writes the samples of publication behind a text: the totals, then those of each node.
pub fn append_publication_metrics(body: &mut String, observations: &Vec<(String, PublicationObservation)>)
    ensures
        final(body)@ == old(body)@ + rendered(publication_totals(observations@) + all_node_samples(observations@)),
{
    let ghost start = body@;
    let totals: Vec<Sample> = vec![
        sample("lmt_agents_atomic_publication_capable", capable(observations)),
        sample(
            "lmt_publication_commits_total{outcome=\"succeeded\"}",
            sum(observations, HealthCounter::CommitsSucceeded),
        ),
        sample(
            "lmt_publication_commits_total{outcome=\"failed\"}",
            sum(observations, HealthCounter::CommitsFailed),
        ),
        sample(
            "lmt_publication_visibility_to_durability_milliseconds_total",
            sum(observations, HealthCounter::DurabilityMilliseconds),
        ),
        sample(
            "lmt_publication_visibility_to_durability_samples_total",
            sum(observations, HealthCounter::DurabilitySamples),
        ),
        sample(
            "lmt_publication_preflight_rejections_total",
            sum(observations, HealthCounter::PreflightRejections),
        ),
        sample("lmt_publication_gc_failures_total", sum(observations, HealthCounter::GcFailures)),
    ];
    assert(sample_views(totals@) =~= publication_totals(observations@));
    append_samples(body, &totals);
    let ghost upto = publication_totals(observations@);
    let mut i: usize = 0;
    assert(observations@.take(0) =~= Seq::empty());
    assert(upto + all_node_samples(observations@.take(0)) =~= upto);
    while i < observations.len()
        invariant
            i <= observations.len(),
            body@ == start + rendered(upto + all_node_samples(observations@.take(i as int))),
        decreases observations.len() - i,
    {
        let lines: Vec<Sample> = node_sample_list(observations[i].0.as_str(), observations[i].1.cumulative);
        append_samples(body, &lines);
        proof {
            assert(observations@.take(i + 1).drop_last() == observations@.take(i as int));
            let before = upto + all_node_samples(observations@.take(i as int));
            lemma_rendered_joined(before, sample_views(lines@));
            assert(before + sample_views(lines@) =~= upto + all_node_samples(observations@.take(i + 1)));
        }
        i = i + 1;
    }
    assert(observations@.take(observations@.len() as int) == observations@);
}

/// The whole seconds of a moment in milliseconds, towards the epoch.
pub open spec fn whole_seconds(moment: Option<i64>) -> int {
    match moment {
        None => 0,
        Some(ms) => if ms >= 0 {
            ms as int / 1000
        } else {
            -((-ms) / 1000)
        },
    }
}

fn seconds(moment: Option<i64>) -> (r: i128)
    ensures
        r == whole_seconds(moment),
        within_values(r as int),
{
    match moment {
        None => 0,
        Some(ms) => if ms >= 0 {
            (ms / 1000) as i128
        } else {
            let size: i128 = -(ms as i128);
            -(size / 1000)
        },
    }
}

/// The samples of a mirror.
pub open spec fn mirror_samples(mirror: MirrorOperationalRecord) -> Seq<(Seq<char>, int)> {
    let pair = "{mirror=\""@ + label(mirror.name@) + "\",node=\""@ + label(mirror.owner_node@) + "\"}"@;
    seq![
        (
            "lmt_mirror_due{mirror=\""@ + label(mirror.name@) + "\"}"@,
            if mirror.due_since_ms is Some {
                1int
            } else {
                0
            },
        ),
        ("lmt_mirror_last_success_timestamp_seconds"@ + pair, whole_seconds(mirror.last_success_at_ms)),
        ("lmt_mirror_last_terminal_timestamp_seconds"@ + pair, whole_seconds(mirror.last_terminal_at_ms)),
    ]
}

/// The samples of a node.
pub open spec fn entity_node_samples(node: NodeRecord, now: i64, offline_after: Span) -> Seq<(Seq<char>, int)> {
    seq![
        (
            node_name("lmt_node_online"@, node.name@),
            if is_online(node.last_seen_at_ms, now, offline_after) {
                1int
            } else {
                0
            },
        ),
        (node_name("lmt_node_last_seen_timestamp_seconds"@, node.name@), whole_seconds(node.last_seen_at_ms)),
        (
            node_name("lmt_node_mirror_root_free_bytes"@, node.name@),
            match node.mirror_root_free_bytes {
                Some(bytes) => bytes as int,
                None => 0,
            },
        ),
    ]
}

/// The samples of some mirrors.
pub open spec fn all_mirror_samples(mirrors: Seq<MirrorOperationalRecord>) -> Seq<(Seq<char>, int)>
    decreases mirrors.len(),
{
    if mirrors.len() == 0 {
        Seq::empty()
    } else {
        all_mirror_samples(mirrors.drop_last()) + mirror_samples(mirrors.last())
    }
}

/// The samples of some nodes.
pub open spec fn all_entity_samples(nodes: Seq<NodeRecord>, now: i64, offline_after: Span) -> Seq<(Seq<char>, int)>
    decreases nodes.len(),
{
    if nodes.len() == 0 {
        Seq::empty()
    } else {
        all_entity_samples(nodes.drop_last(), now, offline_after) + entity_node_samples(
            nodes.last(),
            now,
            offline_after,
        )
    }
}

fn mirror_sample_list(mirror: &MirrorOperationalRecord) -> (r: Vec<Sample>)
    ensures
        sample_views(r@) == mirror_samples(*mirror),
        forall|i: int| 0 <= i < r@.len() ==> within_values((#[trigger] r@[i]).value as int),
{
    let name: String = prometheus_label(mirror.name.as_str());
    let node: String = prometheus_label(mirror.owner_node.as_str());
    let pair: String = text::join5("{mirror=\"", name.as_str(), "\",node=\"", node.as_str(), "\"}");
    let r: Vec<Sample> = vec![
        Sample {
            name: text::join3("lmt_mirror_due{mirror=\"", name.as_str(), "\"}"),
            value: if mirror.due_since_ms.is_some() {
                1
            } else {
                0
            },
        },
        Sample {
            name: text::join2("lmt_mirror_last_success_timestamp_seconds", pair.as_str()),
            value: seconds(mirror.last_success_at_ms),
        },
        Sample {
            name: text::join2("lmt_mirror_last_terminal_timestamp_seconds", pair.as_str()),
            value: seconds(mirror.last_terminal_at_ms),
        },
    ];
    assert(sample_views(r@) =~= mirror_samples(*mirror));
    r
}

fn entity_node_sample_list(node: &NodeRecord, now: i64, offline_after: Span) -> (r: Vec<Sample>)
    ensures
        sample_views(r@) == entity_node_samples(*node, now, offline_after),
        forall|i: int| 0 <= i < r@.len() ==> within_values((#[trigger] r@[i]).value as int),
{
    let mut seen: Sample = node_sample("lmt_node_last_seen_timestamp_seconds", node.name.as_str(), 0);
    seen.value = seconds(node.last_seen_at_ms);
    let r: Vec<Sample> = vec![
        node_sample(
            "lmt_node_online",
            node.name.as_str(),
            if online(node.last_seen_at_ms, now, offline_after) {
                1
            } else {
                0
            },
        ),
        seen,
        node_sample(
            "lmt_node_mirror_root_free_bytes",
            node.name.as_str(),
            match node.mirror_root_free_bytes {
                Some(bytes) => bytes,
                None => 0,
            },
        ),
    ];
    assert(sample_views(r@) =~= entity_node_samples(*node, now, offline_after));
    r
}

/// Writes the samples of mirrors and nodes behind a text.
pub fn append_entity_metrics(
    body: &mut String,
    mirrors: &Vec<MirrorOperationalRecord>,
    nodes: &Vec<NodeRecord>,
    now: i64,
    offline_after: Span,
)
    ensures
        final(body)@ == old(body)@ + rendered(
            all_mirror_samples(mirrors@) + all_entity_samples(nodes@, now, offline_after),
        ),
{
    let ghost start = body@;
    let mut i: usize = 0;
    assert(mirrors@.take(0) =~= Seq::empty());
    while i < mirrors.len()
        invariant
            i <= mirrors.len(),
            body@ == start + rendered(all_mirror_samples(mirrors@.take(i as int))),
        decreases mirrors.len() - i,
    {
        let lines: Vec<Sample> = mirror_sample_list(&mirrors[i]);
        append_samples(body, &lines);
        proof {
            assert(mirrors@.take(i + 1).drop_last() == mirrors@.take(i as int));
            lemma_rendered_joined(all_mirror_samples(mirrors@.take(i as int)), sample_views(lines@));
        }
        i = i + 1;
    }
    assert(mirrors@.take(mirrors@.len() as int) == mirrors@);
    let ghost upto = all_mirror_samples(mirrors@);
    let mut k: usize = 0;
    assert(nodes@.take(0) =~= Seq::empty());
    assert(upto + all_entity_samples(nodes@.take(0), now, offline_after) =~= upto);
    while k < nodes.len()
        invariant
            k <= nodes.len(),
            body@ == start + rendered(upto + all_entity_samples(nodes@.take(k as int), now, offline_after)),
        decreases nodes.len() - k,
    {
        let lines: Vec<Sample> = entity_node_sample_list(&nodes[k], now, offline_after);
        append_samples(body, &lines);
        proof {
            assert(nodes@.take(k + 1).drop_last() == nodes@.take(k as int));
            let before = upto + all_entity_samples(nodes@.take(k as int), now, offline_after);
            lemma_rendered_joined(before, sample_views(lines@));
            assert(before + sample_views(lines@) =~= upto + all_entity_samples(
                nodes@.take(k + 1),
                now,
                offline_after,
            ));
        }
        k = k + 1;
    }
    assert(nodes@.take(nodes@.len() as int) == nodes@);
}

/// Everything that is shown to a collector.
pub fn metrics(
    counts: OperationalCounts,
    counters: AppMetrics,
    observations: &Vec<(String, PublicationObservation)>,
    mirrors: &Vec<MirrorOperationalRecord>,
    nodes: &Vec<NodeRecord>,
    now: i64,
    offline_after: Span,
) -> (r: String)
    ensures
        r@ == rendered(
            server_samples(counts, count_online(nodes@, now, offline_after), counters) + (publication_totals(
                observations@,
            ) + all_node_samples(observations@)) + (all_mirror_samples(mirrors@) + all_entity_samples(
                nodes@,
                now,
                offline_after,
            )),
        ),
{
    let mut body: String = "".to_owned();
    proof {
        reveal_strlit("");
        assert(body@ =~= Seq::empty());
    }
    let first: Vec<Sample> = server_sample_list(counts, nodes_online(nodes, now, offline_after), counters);
    append_samples(&mut body, &first);
    append_publication_metrics(&mut body, observations);
    append_entity_metrics(&mut body, mirrors, nodes, now, offline_after);
    proof {
        let a = server_samples(counts, count_online(nodes@, now, offline_after), counters);
        let b = publication_totals(observations@) + all_node_samples(observations@);
        let c = all_mirror_samples(mirrors@) + all_entity_samples(nodes@, now, offline_after);
        lemma_rendered_joined(a, b);
        lemma_rendered_joined(a + b, c);
    }
    body
}

/// A node is online where it was seen no longer ago than nodes may be silent; one that was never seen is not.
pub proof fn law_nodes_are_online_while_they_are_heard(last_seen: Option<i64>, now: i64, offline_after: Span)
    ensures
        last_seen is None ==> !is_online(last_seen, now, offline_after),
        last_seen is Some && i64::MIN <= now - last_seen->0 <= i64::MAX && offline_after.millis() <= i64::MAX ==> (is_online(
            last_seen,
            now,
            offline_after,
        ) <==> now - last_seen->0 <= offline_after.millis()),
        last_seen is Some && last_seen->0 >= now ==> is_online(last_seen, now, offline_after),
{
}

/// What is summed over nodes and agents is summed one by one, and what is told of them is told one after the
/// other.
pub proof fn law_sums_go_over_all(
    nodes: Seq<NodeRecord>,
    node: NodeRecord,
    now: i64,
    offline_after: Span,
    observations: Seq<(String, PublicationObservation)>,
    one: (String, PublicationObservation),
    which: HealthCounter,
    mirrors: Seq<MirrorOperationalRecord>,
    mirror: MirrorOperationalRecord,
    samples: Seq<(Seq<char>, int)>,
    sample: (Seq<char>, int),
)
    ensures
        count_online(nodes.push(node), now, offline_after) - count_online(nodes, now, offline_after) == (if is_online(
            node.last_seen_at_ms,
            now,
            offline_after,
        ) { 1int } else { 0 }),
        summed(observations.push(one), which) - summed(observations, which) == counter(one.1.cumulative, which),
        count_capable(observations.push(one)) - count_capable(observations) == (if one.1.atomic_capable { 1int } else { 0 }),
        all_node_samples(observations.push(one)) == all_node_samples(observations) + node_samples(one.0@, one.1.cumulative),
        all_mirror_samples(mirrors.push(mirror)) == all_mirror_samples(mirrors) + mirror_samples(mirror),
        all_entity_samples(nodes.push(node), now, offline_after) == all_entity_samples(nodes, now, offline_after)
            + entity_node_samples(node, now, offline_after),
        rendered(samples.push(sample)) == rendered(samples) + (sample.0 + " "@ + text::signed_decimal(sample.1) + "\n"@),
        count_online(Seq::empty(), now, offline_after) == 0,
        summed(Seq::empty(), which) == 0,
        count_capable(Seq::empty()) == 0,
        rendered(Seq::empty()).len() == 0,
{
    assert(nodes.push(node).drop_last() =~= nodes);
    assert(observations.push(one).drop_last() =~= observations);
    assert(mirrors.push(mirror).drop_last() =~= mirrors);
    assert(samples.push(sample).drop_last() =~= samples);
}

/// Every counter is told under its own name.
pub proof fn law_counters_are_told_by_name(counts: OperationalCounts, online: nat, m: AppMetrics)
    ensures
        ({
            let told = server_samples(counts, online, m);
            &&& told.contains(("lmt_runs_pending"@, counts.pending_runs as int))
            &&& told.contains(("lmt_runs_running"@, counts.running_runs as int))
            &&& told.contains(("lmt_mirrors_due"@, counts.due_mirrors as int))
            &&& told.contains(("lmt_run_logs_stored_bytes"@, counts.stored_log_bytes as int))
            &&& told.contains(("lmt_nodes_online"@, online as int))
            &&& told.contains(("lmt_retries_scheduled_total{reason=\"retryable_failure\"}"@, m.retries_scheduled as int))
            &&& told.contains(("lmt_attempts_terminal_total{state=\"succeeded\"}"@, m.attempts_succeeded as int))
            &&& told.contains(("lmt_attempts_terminal_total{state=\"failed\"}"@, m.attempts_failed as int))
            &&& told.contains(("lmt_attempts_terminal_total{state=\"timed_out\"}"@, m.attempts_timed_out as int))
            &&& told.contains(("lmt_attempts_terminal_total{state=\"cancelled\"}"@, m.attempts_cancelled as int))
            &&& told.contains(("lmt_attempts_terminal_total{state=\"rejected\"}"@, m.attempts_rejected as int))
            &&& told.contains(("lmt_attempts_terminal_total{state=\"interrupted\"}"@, m.attempts_interrupted as int))
            &&& told.contains(("lmt_cancellations_total{outcome=\"immediate\"}"@, m.cancellations_immediate as int))
            &&& told.contains(("lmt_cancellations_total{outcome=\"dispatched\"}"@, m.cancellations_dispatched as int))
            &&& told.contains(("lmt_agent_polls_total"@, m.polls as int))
            &&& told.contains(("lmt_attempt_events_total"@, m.events as int))
            &&& told.contains(("lmt_auth_failures_total"@, m.auth_failures as int))
        }),
{
    let told = server_samples(counts, online, m);
    assert(told[1].1 == counts.pending_runs);
    assert(told[2].1 == counts.running_runs);
    assert(told[3].1 == counts.due_mirrors);
    assert(told[4].1 == online);
    assert(told[9].1 == m.retries_scheduled);
    assert(told[10].1 == m.attempts_succeeded);
    assert(told[11].1 == m.attempts_failed);
    assert(told[12].1 == m.attempts_timed_out);
    assert(told[13].1 == m.attempts_cancelled);
    assert(told[14].1 == m.attempts_rejected);
    assert(told[15].1 == m.attempts_interrupted);
    assert(told[16].1 == m.cancellations_immediate);
    assert(told[17].1 == m.cancellations_dispatched);
    assert(told[18].1 == m.polls);
    assert(told[19].1 == m.events);
    assert(told[22].1 == counts.stored_log_bytes);
    assert(told[26].1 == m.auth_failures);
}

/// What is told of a mirror and of a node is what is known of it, moments in whole seconds.
pub proof fn law_rows_are_told_in_seconds(mirror: MirrorOperationalRecord, node: NodeRecord, now: i64, offline_after: Span)
    ensures
        mirror_samples(mirror).len() == 3,
        mirror_samples(mirror)[0].1 == (if mirror.due_since_ms is Some { 1int } else { 0 }),
        mirror.last_success_at_ms is None ==> mirror_samples(mirror)[1].1 == 0,
        mirror.last_success_at_ms is Some && mirror.last_success_at_ms->0 >= 0 ==> mirror_samples(mirror)[1].1 * 1000
            <= mirror.last_success_at_ms->0 < (mirror_samples(mirror)[1].1 + 1) * 1000,
        mirror.last_terminal_at_ms is None ==> mirror_samples(mirror)[2].1 == 0,
        mirror.last_terminal_at_ms is Some && mirror.last_terminal_at_ms->0 >= 0 ==> mirror_samples(mirror)[2].1 * 1000
            <= mirror.last_terminal_at_ms->0 < (mirror_samples(mirror)[2].1 + 1) * 1000,
        entity_node_samples(node, now, offline_after).len() == 3,
        entity_node_samples(node, now, offline_after)[0].1 == (if is_online(node.last_seen_at_ms, now, offline_after) {
            1int
        } else {
            0
        }),
        node.last_seen_at_ms is Some && node.last_seen_at_ms->0 >= 0 ==> entity_node_samples(node, now, offline_after)[1].1 * 1000
            <= node.last_seen_at_ms->0 < (entity_node_samples(node, now, offline_after)[1].1 + 1) * 1000,
        node.mirror_root_free_bytes is Some ==> entity_node_samples(node, now, offline_after)[2].1
            == node.mirror_root_free_bytes->0,
{
}

/// What is told of an agent's publishing is its totals and how it stands; why it takes nothing is told only while
/// something is in the way.
pub proof fn law_publishing_is_told_as_reported(node: Seq<char>, health: PublicationHealth)
    ensures
        ({
            let told = node_samples(node, health);
            let at = if health.publication_root_free_bytes is Some { 1int } else { 0 };
            &&& told.len() == 4 + at + (if health.admission_block_reason is Some { 1int } else { 0 })
            &&& health.publication_root_free_bytes is Some ==> told[0].1 == health.publication_root_free_bytes->0
            &&& told[at].1 == health.gc_backlog_generations
            &&& told[at + 1].1 == (if health.degraded { 1int } else { 0 })
            &&& told[at + 2].1 == health.fenced_records
            &&& told[at + 3].1 == health.recovery_records
            &&& health.admission_block_reason is Some ==> told[at + 4].1 == 1
        }),
        counter(health, HealthCounter::CommitsSucceeded) == health.commits_succeeded_total,
        counter(health, HealthCounter::CommitsFailed) == health.commits_failed_total,
        counter(health, HealthCounter::DurabilityMilliseconds) == health.visibility_to_durability_milliseconds_total,
        counter(health, HealthCounter::DurabilitySamples) == health.visibility_to_durability_samples_total,
        counter(health, HealthCounter::PreflightRejections) == health.preflight_rejections_total,
        counter(health, HealthCounter::GcFailures) == health.gc_failures_total,
{
}

} // verus!
