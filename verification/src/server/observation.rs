//! What agents report of publication, summed over their restarts.
use crate::protocol::PublicationHealth;
use crate::text;
use vstd::prelude::*;

verus! {

/// What has been seen of publication on a node: the last report, and the totals over all boots.
#[derive(Debug, PartialEq, Eq)]
pub struct PublicationObservation {
    pub agent_instance_id: String,
    pub agent_boot_id: String,
    pub atomic_capable: bool,
    pub last: PublicationHealth,
    pub cumulative: PublicationHealth,
}

impl Clone for PublicationObservation {
    fn clone(&self) -> (r: Self)
        ensures
            r == *self,
    {
        PublicationObservation {
            agent_instance_id: self.agent_instance_id.clone(),
            agent_boot_id: self.agent_boot_id.clone(),
            atomic_capable: self.atomic_capable,
            last: self.last,
            cumulative: self.cumulative,
        }
    }
}

/// What a counter has grown by since the last report; one that started anew has grown from nothing.
pub open spec fn delta(current: u64, previous: u64, reset: bool) -> u64 {
    if reset || current < previous {
        current
    } else {
        (current - previous) as u64
    }
}

/// What a counter has grown by since the last report.
pub fn counter_delta(current: u64, previous: u64, reset: bool) -> (r: u64)
    ensures
        r == delta(current, previous, reset),
{
    if reset || current < previous {
        current
    } else {
        current - previous
    }
}

/// A sum held to 64 bits.
pub open spec fn capped(total: nat) -> u64 {
    if total > u64::MAX {
        u64::MAX
    } else {
        total as u64
    }
}

/// A total carried on by what its counter has grown by.
pub open spec fn carried(total: u64, current: u64, previous: u64, reset: bool) -> u64 {
    capped((total + delta(current, previous, reset)) as nat)
}

/// The totals carried on by a report; what is no counter is as reported.
pub open spec fn accumulated(
    cumulative: PublicationHealth,
    last: PublicationHealth,
    health: PublicationHealth,
    reset: bool,
) -> PublicationHealth {
    PublicationHealth {
        commits_succeeded_total: carried(
            cumulative.commits_succeeded_total,
            health.commits_succeeded_total,
            last.commits_succeeded_total,
            reset,
        ),
        commits_failed_total: carried(
            cumulative.commits_failed_total,
            health.commits_failed_total,
            last.commits_failed_total,
            reset,
        ),
        visibility_to_durability_milliseconds_total: carried(
            cumulative.visibility_to_durability_milliseconds_total,
            health.visibility_to_durability_milliseconds_total,
            last.visibility_to_durability_milliseconds_total,
            reset,
        ),
        visibility_to_durability_samples_total: carried(
            cumulative.visibility_to_durability_samples_total,
            health.visibility_to_durability_samples_total,
            last.visibility_to_durability_samples_total,
            reset,
        ),
        preflight_rejections_total: carried(
            cumulative.preflight_rejections_total,
            health.preflight_rejections_total,
            last.preflight_rejections_total,
            reset,
        ),
        gc_failures_total: carried(
            cumulative.gc_failures_total,
            health.gc_failures_total,
            last.gc_failures_total,
            reset,
        ),
        publication_root_free_bytes: health.publication_root_free_bytes,
        gc_backlog_generations: health.gc_backlog_generations,
        admission_block_reason: health.admission_block_reason,
        fenced_records: health.fenced_records,
        recovery_records: health.recovery_records,
        degraded: health.degraded,
    }
}

/// True when a report comes from another installation or another boot than the last one.
pub open spec fn restarted(observation: PublicationObservation, instance: Seq<char>, boot: Seq<char>) -> bool {
    observation.agent_instance_id@ != instance || observation.agent_boot_id@ != boot
}

fn carry(total: u64, current: u64, previous: u64, reset: bool) -> (r: u64)
    ensures
        r == carried(total, current, previous, reset),
{
    total.saturating_add(counter_delta(current, previous, reset))
}

/// What a report makes of what was known.
pub open spec fn updated_by(
    before: PublicationObservation,
    after: PublicationObservation,
    agent_instance_id: Seq<char>,
    agent_boot_id: Seq<char>,
    atomic_capable: bool,
    health: PublicationHealth,
) -> bool {
    &&& after.agent_instance_id@ == agent_instance_id
    &&& after.agent_boot_id@ == agent_boot_id
    &&& after.atomic_capable == atomic_capable
    &&& after.last == health
    &&& after.cumulative == accumulated(
        before.cumulative,
        before.last,
        health,
        restarted(before, agent_instance_id, agent_boot_id),
    )
}

impl PublicationObservation {
    /// What a first report shows.
    pub fn new(agent_instance_id: String, agent_boot_id: String, atomic_capable: bool, health: PublicationHealth) -> (r:
        Self)
        ensures
            r == (PublicationObservation {
                agent_instance_id,
                agent_boot_id,
                atomic_capable,
                last: health,
                cumulative: health,
            }),
    {
        PublicationObservation { agent_instance_id, agent_boot_id, atomic_capable, last: health, cumulative: health }
    }

    /// Takes a further report.
    pub fn update(
        &mut self,
        agent_instance_id: &str,
        agent_boot_id: &str,
        atomic_capable: bool,
        health: PublicationHealth,
    )
        ensures
            updated_by(*old(self), *final(self), agent_instance_id@, agent_boot_id@, atomic_capable, health),
    {
        let reset: bool = !text::same(self.agent_instance_id.as_str(), agent_instance_id) || !text::same(
            self.agent_boot_id.as_str(),
            agent_boot_id,
        );
        let total: PublicationHealth = self.cumulative;
        let last: PublicationHealth = self.last;
        self.cumulative = PublicationHealth {
            commits_succeeded_total: carry(
                total.commits_succeeded_total,
                health.commits_succeeded_total,
                last.commits_succeeded_total,
                reset,
            ),
            commits_failed_total: carry(
                total.commits_failed_total,
                health.commits_failed_total,
                last.commits_failed_total,
                reset,
            ),
            visibility_to_durability_milliseconds_total: carry(
                total.visibility_to_durability_milliseconds_total,
                health.visibility_to_durability_milliseconds_total,
                last.visibility_to_durability_milliseconds_total,
                reset,
            ),
            visibility_to_durability_samples_total: carry(
                total.visibility_to_durability_samples_total,
                health.visibility_to_durability_samples_total,
                last.visibility_to_durability_samples_total,
                reset,
            ),
            preflight_rejections_total: carry(
                total.preflight_rejections_total,
                health.preflight_rejections_total,
                last.preflight_rejections_total,
                reset,
            ),
            gc_failures_total: carry(
                total.gc_failures_total,
                health.gc_failures_total,
                last.gc_failures_total,
                reset,
            ),
            publication_root_free_bytes: health.publication_root_free_bytes,
            gc_backlog_generations: health.gc_backlog_generations,
            admission_block_reason: health.admission_block_reason,
            fenced_records: health.fenced_records,
            recovery_records: health.recovery_records,
            degraded: health.degraded,
        };
        self.agent_instance_id = agent_instance_id.to_owned();
        self.agent_boot_id = agent_boot_id.to_owned();
        self.atomic_capable = atomic_capable;
        self.last = health;
    }
}

/// Reporting the same counters again adds nothing: a repeated report leaves every total as it is.
pub proof fn law_repeated_reports_add_nothing(cumulative: PublicationHealth, health: PublicationHealth)
    ensures
        accumulated(cumulative, health, health, false).commits_succeeded_total == cumulative.commits_succeeded_total,
        accumulated(cumulative, health, health, false).commits_failed_total == cumulative.commits_failed_total,
        accumulated(cumulative, health, health, false).visibility_to_durability_milliseconds_total
            == cumulative.visibility_to_durability_milliseconds_total,
        accumulated(cumulative, health, health, false).visibility_to_durability_samples_total
            == cumulative.visibility_to_durability_samples_total,
        accumulated(cumulative, health, health, false).preflight_rejections_total
            == cumulative.preflight_rejections_total,
        accumulated(cumulative, health, health, false).gc_failures_total == cumulative.gc_failures_total,
{
}

/// Totals never fall, whatever is reported and however often an agent restarts.
pub proof fn law_totals_never_fall(
    cumulative: PublicationHealth,
    last: PublicationHealth,
    health: PublicationHealth,
    reset: bool,
)
    ensures
        accumulated(cumulative, last, health, reset).commits_succeeded_total >= cumulative.commits_succeeded_total,
        accumulated(cumulative, last, health, reset).commits_failed_total >= cumulative.commits_failed_total,
        accumulated(cumulative, last, health, reset).visibility_to_durability_milliseconds_total
            >= cumulative.visibility_to_durability_milliseconds_total,
        accumulated(cumulative, last, health, reset).visibility_to_durability_samples_total
            >= cumulative.visibility_to_durability_samples_total,
        accumulated(cumulative, last, health, reset).preflight_rejections_total
            >= cumulative.preflight_rejections_total,
        accumulated(cumulative, last, health, reset).gc_failures_total >= cumulative.gc_failures_total,
{
}

/// A report of the same start of the same agent adds to each total what its counter grew by; the first
/// report of another start, or one whose counter began anew, adds the whole counter.
pub proof fn law_totals_grow_by_what_was_counted(
    before: PublicationObservation,
    after: PublicationObservation,
    instance: Seq<char>,
    boot: Seq<char>,
    atomic_capable: bool,
    health: PublicationHealth,
)
    requires
        updated_by(before, after, instance, boot, atomic_capable, health),
    ensures
        ({
            let same = before.agent_instance_id@ == instance && before.agent_boot_id@ == boot;
            &&& grows(
                same,
                before.cumulative.commits_succeeded_total,
                after.cumulative.commits_succeeded_total,
                before.last.commits_succeeded_total,
                health.commits_succeeded_total,
            )
            &&& grows(
                same,
                before.cumulative.commits_failed_total,
                after.cumulative.commits_failed_total,
                before.last.commits_failed_total,
                health.commits_failed_total,
            )
            &&& grows(
                same,
                before.cumulative.visibility_to_durability_milliseconds_total,
                after.cumulative.visibility_to_durability_milliseconds_total,
                before.last.visibility_to_durability_milliseconds_total,
                health.visibility_to_durability_milliseconds_total,
            )
            &&& grows(
                same,
                before.cumulative.visibility_to_durability_samples_total,
                after.cumulative.visibility_to_durability_samples_total,
                before.last.visibility_to_durability_samples_total,
                health.visibility_to_durability_samples_total,
            )
            &&& grows(
                same,
                before.cumulative.preflight_rejections_total,
                after.cumulative.preflight_rejections_total,
                before.last.preflight_rejections_total,
                health.preflight_rejections_total,
            )
            &&& grows(
                same,
                before.cumulative.gc_failures_total,
                after.cumulative.gc_failures_total,
                before.last.gc_failures_total,
                health.gc_failures_total,
            )
        }),
        after.agent_instance_id@ == instance,
        after.agent_boot_id@ == boot,
        after.atomic_capable == atomic_capable,
        after.last == health,
        after.cumulative.publication_root_free_bytes == health.publication_root_free_bytes,
        after.cumulative.gc_backlog_generations == health.gc_backlog_generations,
        after.cumulative.admission_block_reason == health.admission_block_reason,
        after.cumulative.fenced_records == health.fenced_records,
        after.cumulative.recovery_records == health.recovery_records,
        after.cumulative.degraded == health.degraded,
{
}

/// A total grew by what its counter counted since it was last seen, as far as it can be counted.
pub open spec fn grows(same: bool, total: u64, next: u64, last: u64, counter: u64) -> bool {
    &&& same && counter >= last && total + (counter - last) <= u64::MAX ==> next - total == counter - last
    &&& (!same || counter < last) && total + counter <= u64::MAX ==> next - total == counter
    &&& next >= total
}

} // verus!
