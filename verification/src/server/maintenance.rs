//! Which logs of runs expire.
use super::observation::capped;
use super::settings::RunLogPolicy;
use super::settings::Span;
use crate::protocol::LogExpirationView;
use crate::protocol::LogMaintenancePlan;
use crate::store::logs::LogRetentionEntry;
use crate::text;
use vstd::prelude::*;

verus! {

/// How many bytes the logs hold that have not expired.
pub open spec fn kept(entries: Seq<LogRetentionEntry>) -> nat
    decreases entries.len(),
{
    if entries.len() == 0 {
        0
    } else {
        kept(entries.drop_last()) + (if entries.last().expired_at_ms is None {
            entries.last().stored_bytes as nat
        } else {
            0
        })
    }
}

/// How many bytes some logs hold that are to expire.
pub open spec fn expiring(candidates: Seq<LogExpirationView>) -> nat
    decreases candidates.len(),
{
    if candidates.len() == 0 {
        0
    } else {
        expiring(candidates.drop_last()) + candidates.last().stored_bytes as nat
    }
}

/// True when a log may still expire.
pub open spec fn open_to_expiry(entry: LogRetentionEntry) -> bool {
    entry.expired_at_ms is None && entry.eligible
}

/// A log that is to expire.
pub open spec fn candidate_of(entry: LogRetentionEntry) -> LogExpirationView {
    LogExpirationView { run_id: entry.run_id, attempt: entry.attempt_no, stored_bytes: entry.stored_bytes }
}

/// The latest moment at which a log was touched that is old enough to expire.
pub open spec fn cutoff(retention: Option<Span>, now: i64) -> Option<i64> {
    match retention {
        None => None,
        Some(span) => {
            let age = if span.millis() > i64::MAX {
                i64::MAX as int
            } else {
                span.millis() as int
            };
            Some(
                if now - age < i64::MIN {
                    i64::MIN
                } else {
                    (now - age) as i64
                },
            )
        },
    }
}

/// The logs that are old enough to expire.
pub open spec fn aged(entries: Seq<LogRetentionEntry>, cutoff: Option<i64>) -> Seq<LogExpirationView>
    decreases entries.len(),
{
    if entries.len() == 0 {
        Seq::empty()
    } else {
        let entry = entries.last();
        let before = aged(entries.drop_last(), cutoff);
        if open_to_expiry(entry) && cutoff is Some && entry.updated_at_ms <= cutoff->0 {
            before.push(candidate_of(entry))
        } else {
            before
        }
    }
}

/// What is left of a number of bytes after some are taken away.
pub open spec fn left(total: u64, taken: nat) -> u64 {
    if taken > total {
        0
    } else {
        (total - taken) as u64
    }
}

/// True when a log is among those that are to expire.
pub open spec fn chosen(candidates: Seq<LogExpirationView>, entry: LogRetentionEntry) -> bool {
    exists|i: int|
        0 <= i < candidates.len() && (#[trigger] candidates[i]).run_id@ == entry.run_id@ && candidates[i].attempt
            == entry.attempt_no
}

/// The logs that are to expire once enough further ones, those first that were touched earlier, are
/// added to bring what is kept down to a limit.
pub open spec fn brought_down(
    entries: Seq<LogRetentionEntry>,
    candidates: Seq<LogExpirationView>,
    projected: u64,
    limit: u64,
) -> Seq<LogExpirationView>
    decreases entries.len(),
{
    if entries.len() == 0 {
        candidates
    } else {
        let entry = entries[0];
        if !open_to_expiry(entry) {
            brought_down(entries.drop_first(), candidates, projected, limit)
        } else if projected <= limit {
            candidates
        } else if chosen(candidates, entry) {
            brought_down(entries.drop_first(), candidates, projected, limit)
        } else {
            brought_down(
                entries.drop_first(),
                candidates.push(candidate_of(entry)),
                left(projected, entry.stored_bytes as nat),
                limit,
            )
        }
    }
}

/// The logs that are to expire under a policy: those that are old enough, then as many further ones
/// as bring what is kept down to the limit.
pub open spec fn candidates(entries: Seq<LogRetentionEntry>, policy: RunLogPolicy, now: i64) -> Seq<LogExpirationView> {
    let old_enough = aged(entries, cutoff(policy.retention, now));
    match policy.max_total_bytes {
        None => old_enough,
        Some(limit) => brought_down(entries, old_enough, left(capped(kept(entries)), expiring(old_enough)), limit),
    }
}

/// True of a log that should have a file: it has not expired and holds bytes.
pub open spec fn has_file(entry: LogRetentionEntry) -> bool {
    entry.expired_at_ms is None && entry.stored_bytes > 0
}

/// The logs that should have a file, in their order.
pub open spec fn are_with_files(entries: Seq<LogRetentionEntry>, r: Seq<LogRetentionEntry>) -> bool {
    r == entries.filter(|entry: LogRetentionEntry| has_file(entry))
}

/// The logs that should have a file, in their order.
pub fn logs_with_files(entries: Vec<LogRetentionEntry>) -> (r: Vec<LogRetentionEntry>)
    ensures
        are_with_files(entries@, r@),
{
    let ghost all = entries@;
    let ghost wanted = |entry: LogRetentionEntry| has_file(entry);
    let mut out: Vec<LogRetentionEntry> = Vec::new();
    proof {
        reveal(Seq::filter);
        assert(all.take(0).filter(wanted) == Seq::<LogRetentionEntry>::empty());
    }
    for entry in it: entries
        invariant
            it.seq() == all,
            wanted == (|entry: LogRetentionEntry| has_file(entry)),
            out@ == all.take(it.index()).filter(wanted),
    {
        proof {
            reveal(Seq::filter);
            assert(all.take(it.index() + 1).drop_last() == all.take(it.index()));
            assert(all.take(it.index() + 1).last() == entry);
        }
        if entry.expired_at_ms.is_none() && entry.stored_bytes > 0 {
            out.push(entry);
        }
    }
    assert(all.take(all.len() as int) == all);
    out
}

fn is_chosen(candidates: &Vec<LogExpirationView>, entry: &LogRetentionEntry) -> (r: bool)
    ensures
        r == chosen(candidates@, *entry),
{
    let mut i: usize = 0;
    while i < candidates.len()
        invariant
            i <= candidates.len(),
            forall|k: int|
                0 <= k < i ==> !((#[trigger] candidates@[k]).run_id@ == entry.run_id@ && candidates@[k].attempt
                    == entry.attempt_no),
        decreases candidates.len() - i,
    {
        if candidates[i].attempt == entry.attempt_no && text::same(
            candidates[i].run_id.as_str(),
            entry.run_id.as_str(),
        ) {
            return true;
        }
        i = i + 1;
    }
    false
}

fn to_candidate(entry: &LogRetentionEntry) -> (r: LogExpirationView)
    ensures
        r == candidate_of(*entry),
{
    LogExpirationView { run_id: entry.run_id.clone(), attempt: entry.attempt_no, stored_bytes: entry.stored_bytes }
}

fn total_kept(entries: &Vec<LogRetentionEntry>) -> (r: u64)
    ensures
        r == capped(kept(entries@)),
{
    let mut total: u64 = 0;
    let mut i: usize = 0;
    while i < entries.len()
        invariant
            i <= entries.len(),
            total == capped(kept(entries@.take(i as int))),
        decreases entries.len() - i,
    {
        assert(entries@.take(i + 1).drop_last() == entries@.take(i as int));
        if entries[i].expired_at_ms.is_none() {
            total = total.saturating_add(entries[i].stored_bytes);
        }
        i = i + 1;
    }
    assert(entries@.take(entries@.len() as int) == entries@);
    total
}

fn total_expiring(candidates: &Vec<LogExpirationView>) -> (r: u64)
    ensures
        r == capped(expiring(candidates@)),
{
    let mut total: u64 = 0;
    let mut i: usize = 0;
    while i < candidates.len()
        invariant
            i <= candidates.len(),
            total == capped(expiring(candidates@.take(i as int))),
        decreases candidates.len() - i,
    {
        assert(candidates@.take(i + 1).drop_last() == candidates@.take(i as int));
        total = total.saturating_add(candidates[i].stored_bytes);
        i = i + 1;
    }
    assert(candidates@.take(candidates@.len() as int) == candidates@);
    total
}

fn age_cutoff(retention: Option<Span>, now: i64) -> (r: Option<i64>)
    ensures
        r == cutoff(retention, now),
{
    match retention {
        None => None,
        Some(span) => Some(
            match now.checked_sub(span.millis_i64()) {
                Some(moment) => moment,
                None => i64::MIN,
            },
        ),
    }
}

/// What is planned for the logs.
pub open spec fn is_log_plan(
    entries: Seq<LogRetentionEntry>,
    policy: Option<RunLogPolicy>,
    now: i64,
    r: LogMaintenancePlan,
) -> bool {
    &&& r.stored_bytes == capped(kept(entries))
    &&& r.candidates@ == (match policy {
        Some(limits) => candidates(entries, limits, now),
        None => Seq::empty(),
    })
    &&& r.expire_bytes == capped(expiring(r.candidates@))
}

/// Plans which logs expire. Without a policy none does.
pub fn plan_log_maintenance(entries: &Vec<LogRetentionEntry>, policy: Option<RunLogPolicy>, now: i64) -> (r:
    LogMaintenancePlan)
    ensures
        is_log_plan(entries@, policy, now, r),
{
    let stored_bytes: u64 = total_kept(entries);
    let limits: RunLogPolicy = match policy {
        None => {
            return LogMaintenancePlan { stored_bytes, expire_bytes: 0, candidates: Vec::new() };
        },
        Some(limits) => limits,
    };
    let cutoff_ms: Option<i64> = age_cutoff(limits.retention, now);
    let mut candidates: Vec<LogExpirationView> = Vec::new();
    let mut projected: u64 = stored_bytes;
    let mut i: usize = 0;
    while i < entries.len()
        invariant
            i <= entries.len(),
            candidates@ == aged(entries@.take(i as int), cutoff_ms),
            projected == left(stored_bytes, expiring(candidates@)),
        decreases entries.len() - i,
    {
        assert(entries@.take(i + 1).drop_last() == entries@.take(i as int));
        let entry: &LogRetentionEntry = &entries[i];
        if entry.expired_at_ms.is_none() && entry.eligible {
            let old_enough: bool = match cutoff_ms {
                Some(moment) => entry.updated_at_ms <= moment,
                None => false,
            };
            if old_enough {
                projected = projected.saturating_sub(entry.stored_bytes);
                let ghost before = candidates@;
                candidates.push(to_candidate(entry));
                assert(candidates@.drop_last() == before);
            }
        }
        i = i + 1;
    }
    assert(entries@.take(entries@.len() as int) == entries@);
    if let Some(limit) = limits.max_total_bytes {
        let mut k: usize = 0;
        let ghost goal = brought_down(entries@, candidates@, projected, limit);
        let mut done: bool = false;
        assert(entries@.subrange(0, entries@.len() as int) == entries@);
        while k < entries.len() && !done
            invariant
                k <= entries.len(),
                !done ==> goal == brought_down(
                    entries@.subrange(k as int, entries@.len() as int),
                    candidates@,
                    projected,
                    limit,
                ),
                done ==> goal == candidates@,
            decreases entries.len() - k,
        {
            let ghost rest = entries@.subrange(k as int, entries@.len() as int);
            assert(rest.drop_first() == entries@.subrange(k + 1, entries@.len() as int));
            let entry: &LogRetentionEntry = &entries[k];
            if entry.expired_at_ms.is_none() && entry.eligible {
                if projected <= limit {
                    done = true;
                } else if !is_chosen(&candidates, entry) {
                    projected = projected.saturating_sub(entry.stored_bytes);
                    candidates.push(to_candidate(entry));
                }
            }
            k = k + 1;
        }
    }
    let expire_bytes: u64 = total_expiring(&candidates);
    LogMaintenancePlan { stored_bytes, expire_bytes, candidates }
}

/// True when each candidate stands for a log that may still expire.
pub open spec fn all_open(entries: Seq<LogRetentionEntry>, candidates: Seq<LogExpirationView>) -> bool {
    forall|i: int|
        0 <= i < candidates.len() ==> exists|j: int|
            0 <= j < entries.len() && open_to_expiry(#[trigger] entries[j]) && (#[trigger] candidates[i])
                == candidate_of(entries[j])
}

proof fn lemma_aged_open(entries: Seq<LogRetentionEntry>, cutoff: Option<i64>, n: int)
    requires
        0 <= n <= entries.len(),
    ensures
        all_open(entries, aged(entries.take(n), cutoff)),
    decreases n,
{
    if n > 0 {
        lemma_aged_open(entries, cutoff, n - 1);
        assert(entries.take(n).drop_last() == entries.take(n - 1));
        let now = aged(entries.take(n), cutoff);
        let before = aged(entries.take(n - 1), cutoff);
        assert forall|i: int| 0 <= i < now.len() implies exists|j: int|
            0 <= j < entries.len() && open_to_expiry(#[trigger] entries[j]) && (#[trigger] now[i]) == candidate_of(
                entries[j],
            ) by {
            if i < before.len() {
                assert(now[i] == before[i]);
            } else {
                assert(open_to_expiry(entries[n - 1]) && now[i] == candidate_of(entries[n - 1]));
            }
        }
    }
}

proof fn lemma_brought_down_open(
    entries: Seq<LogRetentionEntry>,
    from: int,
    candidates: Seq<LogExpirationView>,
    projected: u64,
    limit: u64,
)
    requires
        0 <= from <= entries.len(),
        all_open(entries, candidates),
    ensures
        all_open(
            entries,
            brought_down(entries.subrange(from, entries.len() as int), candidates, projected, limit),
        ),
    decreases entries.len() - from,
{
    let rest = entries.subrange(from, entries.len() as int);
    if rest.len() > 0 {
        assert(rest.drop_first() == entries.subrange(from + 1, entries.len() as int));
        let entry = rest[0];
        assert(entry == entries[from]);
        lemma_brought_down_open(entries, from + 1, candidates, projected, limit);
        if open_to_expiry(entry) {
            let more = candidates.push(candidate_of(entry));
            assert forall|i: int| 0 <= i < more.len() implies exists|j: int|
                0 <= j < entries.len() && open_to_expiry(#[trigger] entries[j]) && (#[trigger] more[i]) == candidate_of(
                    entries[j],
                ) by {
                if i < candidates.len() {
                    assert(more[i] == candidates[i]);
                } else {
                    assert(open_to_expiry(entries[from]) && more[i] == candidate_of(entries[from]));
                }
            }
            lemma_brought_down_open(
                entries,
                from + 1,
                more,
                left(projected, entry.stored_bytes as nat),
                limit,
            );
        }
    }
}

/// Retention spares what is under way: whatever the policy, each log that is planned to expire is
/// complete, belongs to an attempt that has ended, and has not expired yet.
pub proof fn law_retention_spares_live_logs(entries: Seq<LogRetentionEntry>, policy: RunLogPolicy, now: i64)
    ensures
        all_open(entries, candidates(entries, policy, now)),
{
    let moment = cutoff(policy.retention, now);
    lemma_aged_open(entries, moment, entries.len() as int);
    assert(entries.take(entries.len() as int) == entries);
    if let Some(limit) = policy.max_total_bytes {
        let old_enough = aged(entries, moment);
        lemma_brought_down_open(
            entries,
            0,
            old_enough,
            left(capped(kept(entries)), expiring(old_enough)),
            limit,
        );
        assert(entries.subrange(0, entries.len() as int) == entries);
    }
}

proof fn lemma_brought_down_enough(
    entries: Seq<LogRetentionEntry>,
    from: int,
    candidates: Seq<LogExpirationView>,
    total: u64,
    limit: u64,
)
    requires
        0 <= from <= entries.len(),
        left(total, expiring(candidates)) <= limit || forall|j: int|
            0 <= j < from && open_to_expiry(#[trigger] entries[j]) ==> chosen(candidates, entries[j]),
    ensures
        ({
            let all = brought_down(
                entries.subrange(from, entries.len() as int),
                candidates,
                left(total, expiring(candidates)),
                limit,
            );
            left(total, expiring(all)) <= limit || forall|j: int|
                0 <= j < entries.len() && open_to_expiry(#[trigger] entries[j]) ==> chosen(all, entries[j])
        }),
    decreases entries.len() - from,
{
    let rest = entries.subrange(from, entries.len() as int);
    let projected = left(total, expiring(candidates));
    if rest.len() > 0 {
        let entry = rest[0];
        assert(entry == entries[from]);
        assert(rest.drop_first() == entries.subrange(from + 1, entries.len() as int));
        if !open_to_expiry(entry) {
            lemma_brought_down_enough(entries, from + 1, candidates, total, limit);
        } else if projected > limit {
            if chosen(candidates, entry) {
                lemma_brought_down_enough(entries, from + 1, candidates, total, limit);
            } else {
                let more = candidates.push(candidate_of(entry));
                assert(more.drop_last() == candidates);
                assert forall|j: int| 0 <= j < from + 1 && open_to_expiry(#[trigger] entries[j]) implies chosen(
                    more,
                    entries[j],
                ) by {
                    if j == from {
                        assert(more[candidates.len() as int].run_id@ == entries[j].run_id@);
                    } else {
                        assert(chosen(candidates, entries[j]));
                        let k = choose|k: int|
                            0 <= k < candidates.len() && (#[trigger] candidates[k]).run_id@ == entries[j].run_id@
                                && candidates[k].attempt == entries[j].attempt_no;
                        assert(more[k].run_id@ == entries[j].run_id@);
                    }
                }
                lemma_brought_down_enough(entries, from + 1, more, total, limit);
            }
        }
    }
}

/// Retention keeps to its limit: what is kept after the plan is within the limit, unless every log
/// that may expire is planned to.
pub proof fn law_retention_keeps_to_its_limit(
    entries: Seq<LogRetentionEntry>,
    policy: RunLogPolicy,
    now: i64,
    limit: u64,
)
    requires
        policy.max_total_bytes == Some(limit),
    ensures
        left(capped(kept(entries)), expiring(candidates(entries, policy, now))) <= limit || forall|j: int|
            0 <= j < entries.len() && open_to_expiry(#[trigger] entries[j]) ==> chosen(
                candidates(entries, policy, now),
                entries[j],
            ),
{
    let old_enough = aged(entries, cutoff(policy.retention, now));
    lemma_brought_down_enough(entries, 0, old_enough, capped(kept(entries)), limit);
    assert(entries.subrange(0, entries.len() as int) == entries);
}

/// The logs that should have a file are those that hold something and were not let go.
pub proof fn law_kept_logs_have_files(entries: Seq<LogRetentionEntry>, r: Seq<LogRetentionEntry>, entry: LogRetentionEntry)
    requires
        are_with_files(entries, r),
    ensures
        r.contains(entry) <==> entries.contains(entry) && entry.stored_bytes > 0 && entry.expired_at_ms is None,
        r.len() <= entries.len(),
{
    lemma_filtered(entries, |e: LogRetentionEntry| has_file(e), entry);
}

proof fn lemma_filtered(
    entries: Seq<LogRetentionEntry>,
    keep: spec_fn(LogRetentionEntry) -> bool,
    entry: LogRetentionEntry,
)
    ensures
        entries.filter(keep).contains(entry) <==> entries.contains(entry) && keep(entry),
        entries.filter(keep).len() <= entries.len(),
    decreases entries.len(),
{
    reveal(Seq::filter);
    let all = entries.filter(keep);
    if entries.len() > 0 {
        let rest = entries.drop_last();
        let before = rest.filter(keep);
        lemma_filtered(rest, keep, entry);
        if all.contains(entry) {
            let i = choose|i: int| 0 <= i < all.len() && all[i] == entry;
            if i < before.len() {
                assert(before[i] == entry);
                let k = choose|k: int| 0 <= k < rest.len() && rest[k] == entry;
                assert(entries[k] == entry);
            } else {
                assert(entries[entries.len() - 1] == entry);
            }
        }
        if entries.contains(entry) && keep(entry) {
            let k = choose|k: int| 0 <= k < entries.len() && entries[k] == entry;
            if k < rest.len() {
                assert(rest[k] == entry);
                let i = choose|i: int| 0 <= i < before.len() && before[i] == entry;
                assert(all[i] == entry);
            } else {
                assert(all[all.len() - 1] == entry);
            }
        }
    }
}

/// What is kept is counted log by log: of one log all that it holds, and nothing once it was let go.
pub proof fn law_kept_bytes_add_up(front: Seq<LogRetentionEntry>, rest: Seq<LogRetentionEntry>, entry: LogRetentionEntry)
    ensures
        kept(front + rest) == kept(front) + kept(rest),
        entry.expired_at_ms is None ==> kept(seq![entry]) == entry.stored_bytes,
        entry.expired_at_ms is Some ==> kept(seq![entry]) == 0,
    decreases rest.len(),
{
    reveal_with_fuel(kept, 2);
    assert(seq![entry].drop_last() =~= Seq::empty());
    if rest.len() == 0 {
        assert(front + rest =~= front);
    } else {
        law_kept_bytes_add_up(front, rest.drop_last(), entry);
        assert((front + rest).drop_last() =~= front + rest.drop_last());
    }
}

/// What goes is counted log by log.
pub proof fn law_expiring_bytes_add_up(front: Seq<LogExpirationView>, rest: Seq<LogExpirationView>, one: LogExpirationView)
    ensures
        expiring(front + rest) == expiring(front) + expiring(rest),
        expiring(seq![one]) == one.stored_bytes,
    decreases rest.len(),
{
    reveal_with_fuel(expiring, 2);
    assert(seq![one].drop_last() =~= Seq::empty());
    if rest.len() == 0 {
        assert(front + rest =~= front);
    } else {
        law_expiring_bytes_add_up(front, rest.drop_last(), one);
        assert((front + rest).drop_last() =~= front + rest.drop_last());
    }
}

proof fn lemma_aged_has(entries: Seq<LogRetentionEntry>, moment: Option<i64>, j: int)
    requires
        0 <= j < entries.len(),
        open_to_expiry(entries[j]),
        moment is Some,
        entries[j].updated_at_ms <= moment->0,
    ensures
        aged(entries, moment).contains(candidate_of(entries[j])),
    decreases entries.len(),
{
    let all = aged(entries, moment);
    if j == entries.len() - 1 {
        assert(all[all.len() - 1] == candidate_of(entries[j]));
    } else {
        lemma_aged_has(entries.drop_last(), moment, j);
        let before = aged(entries.drop_last(), moment);
        let i = choose|i: int| 0 <= i < before.len() && before[i] == candidate_of(entries[j]);
        assert(all[i] == before[i]);
    }
}

proof fn lemma_aged_only(entries: Seq<LogRetentionEntry>, moment: Option<i64>, i: int) -> (j: int)
    requires
        0 <= i < aged(entries, moment).len(),
    ensures
        0 <= j < entries.len(),
        open_to_expiry(entries[j]),
        moment is Some,
        entries[j].updated_at_ms <= moment->0,
        aged(entries, moment)[i] == candidate_of(entries[j]),
    decreases entries.len(),
{
    let before = aged(entries.drop_last(), moment);
    if i < before.len() {
        let j = lemma_aged_only(entries.drop_last(), moment, i);
        assert(entries[j] == entries.drop_last()[j]);
        j
    } else {
        entries.len() - 1
    }
}

proof fn lemma_brought_down_extends(
    entries: Seq<LogRetentionEntry>,
    candidates: Seq<LogExpirationView>,
    projected: u64,
    limit: u64,
)
    ensures
        candidates.len() <= brought_down(entries, candidates, projected, limit).len(),
        forall|i: int|
            0 <= i < candidates.len() ==> #[trigger] brought_down(entries, candidates, projected, limit)[i] == candidates[i],
        projected <= limit ==> brought_down(entries, candidates, projected, limit) == candidates,
    decreases entries.len(),
{
    if entries.len() > 0 {
        let entry = entries[0];
        lemma_brought_down_extends(entries.drop_first(), candidates, projected, limit);
        let more = candidates.push(candidate_of(entry));
        let next = left(projected, entry.stored_bytes as nat);
        lemma_brought_down_extends(entries.drop_first(), more, next, limit);
        assert forall|i: int| 0 <= i < candidates.len() implies #[trigger] brought_down(entries, candidates, projected, limit)[i]
            == candidates[i] by {
            assert(more[i] == candidates[i]);
            assert(brought_down(entries.drop_first(), more, next, limit)[i] == more[i]);
        }
    }
}

/// A complete log of an ended attempt that was last touched as long ago as logs are kept goes.
pub proof fn law_old_logs_go(entries: Seq<LogRetentionEntry>, policy: RunLogPolicy, now: i64, j: int)
    requires
        0 <= j < entries.len(),
        entries[j].eligible,
        entries[j].expired_at_ms is None,
        policy.retention is Some,
        policy.retention->0.millis() <= i64::MAX,
        now - entries[j].updated_at_ms >= policy.retention->0.millis(),
    ensures
        chosen(candidates(entries, policy, now), entries[j]),
{
    let moment = cutoff(policy.retention, now);
    lemma_aged_has(entries, moment, j);
    let old_enough = aged(entries, moment);
    let i = choose|i: int| 0 <= i < old_enough.len() && old_enough[i] == candidate_of(entries[j]);
    let all = candidates(entries, policy, now);
    if let Some(limit) = policy.max_total_bytes {
        lemma_brought_down_extends(
            entries,
            old_enough,
            left(capped(kept(entries)), expiring(old_enough)),
            limit,
        );
    }
    assert(all[i].run_id@ == entries[j].run_id@);
}

/// Where no size is given only logs go that were last touched as long ago as logs are kept.
pub proof fn law_young_logs_stay(entries: Seq<LogRetentionEntry>, policy: RunLogPolicy, now: i64, i: int) -> (j: int)
    requires
        policy.max_total_bytes is None,
        0 <= i < candidates(entries, policy, now).len(),
    ensures
        0 <= j < entries.len(),
        candidates(entries, policy, now)[i].run_id@ == entries[j].run_id@,
        candidates(entries, policy, now)[i].attempt == entries[j].attempt_no,
        candidates(entries, policy, now)[i].stored_bytes == entries[j].stored_bytes,
        entries[j].eligible,
        entries[j].expired_at_ms is None,
        policy.retention is Some,
        policy.retention->0.millis() <= i64::MAX && now - policy.retention->0.millis() >= i64::MIN ==> now
            - entries[j].updated_at_ms >= policy.retention->0.millis(),
{
    lemma_aged_only(entries, cutoff(policy.retention, now), i)
}

/// A size that all the logs are within takes none of them.
pub proof fn law_logs_within_the_limit_stay(entries: Seq<LogRetentionEntry>, policy: RunLogPolicy, now: i64, limit: u64)
    requires
        policy.max_total_bytes == Some(limit),
        kept(entries) <= limit,
    ensures
        candidates(entries, policy, now) == candidates(entries, RunLogPolicy { max_total_bytes: None, ..policy }, now),
{
    let old_enough = aged(entries, cutoff(policy.retention, now));
    lemma_brought_down_extends(entries, old_enough, left(capped(kept(entries)), expiring(old_enough)), limit);
}

/// No attempt has two logs among these.
pub open spec fn each_once(entries: Seq<LogRetentionEntry>) -> bool {
    forall|a: int, b: int|
        0 <= a < b < entries.len() ==> (#[trigger] entries[a]).run_id@ != (#[trigger] entries[b]).run_id@
            || entries[a].attempt_no != entries[b].attempt_no
}

proof fn lemma_oldest_first(
    entries: Seq<LogRetentionEntry>,
    from: int,
    candidates: Seq<LogExpirationView>,
    projected: u64,
    limit: u64,
    j: int,
    k: int,
)
    requires
        each_once(entries),
        0 <= from <= j < k < entries.len(),
        open_to_expiry(entries[j]),
        !chosen(brought_down(entries.subrange(from, entries.len() as int), candidates, projected, limit), entries[j]),
        chosen(brought_down(entries.subrange(from, entries.len() as int), candidates, projected, limit), entries[k]),
    ensures
        chosen(candidates, entries[k]),
    decreases entries.len() - from,
{
    let rest = entries.subrange(from, entries.len() as int);
    let entry = rest[0];
    assert(entry == entries[from]);
    assert(rest.drop_first() == entries.subrange(from + 1, entries.len() as int));
    lemma_brought_down_extends(rest, candidates, projected, limit);
    let all = brought_down(rest, candidates, projected, limit);
    if chosen(candidates, entries[j]) {
        let i = choose|i: int|
            0 <= i < candidates.len() && (#[trigger] candidates[i]).run_id@ == entries[j].run_id@ && candidates[i].attempt
                == entries[j].attempt_no;
        assert(all[i].run_id@ == entries[j].run_id@);
    }
    if !open_to_expiry(entry) {
        lemma_oldest_first(entries, from + 1, candidates, projected, limit, j, k);
    } else if projected > limit {
        if chosen(candidates, entry) {
            lemma_oldest_first(entries, from + 1, candidates, projected, limit, j, k);
        } else {
            let more = candidates.push(candidate_of(entry));
            let next = left(projected, entry.stored_bytes as nat);
            lemma_brought_down_extends(rest.drop_first(), more, next, limit);
            if j == from {
                assert(all[candidates.len() as int] == more[candidates.len() as int]);
                assert(all[candidates.len() as int].run_id@ == entries[j].run_id@);
            } else {
                lemma_oldest_first(entries, from + 1, more, next, limit, j, k);
                let i = choose|i: int|
                    0 <= i < more.len() && (#[trigger] more[i]).run_id@ == entries[k].run_id@ && more[i].attempt
                        == entries[k].attempt_no;
                if i < candidates.len() {
                    assert(candidates[i].run_id@ == entries[k].run_id@);
                } else {
                    assert(entries[from].run_id@ == entries[k].run_id@);
                }
            }
        }
    }
}

/// For the sake of the size the logs go in their order: where one that may go stays, a later one goes only
/// for its age.
pub proof fn law_logs_go_in_their_order(
    entries: Seq<LogRetentionEntry>,
    policy: RunLogPolicy,
    now: i64,
    j: int,
    k: int,
)
    requires
        each_once(entries),
        0 <= j < k < entries.len(),
        entries[j].eligible,
        entries[j].expired_at_ms is None,
        !chosen(candidates(entries, policy, now), entries[j]),
        chosen(candidates(entries, policy, now), entries[k]),
    ensures
        chosen(candidates(entries, RunLogPolicy { max_total_bytes: None, ..policy }, now), entries[k]),
{
    let old_enough = aged(entries, cutoff(policy.retention, now));
    let all = entries.subrange(0, entries.len() as int);
    assert(all == entries);
    if policy.max_total_bytes is Some {
        let limit = policy.max_total_bytes->0;
        let projected = left(capped(kept(entries)), expiring(old_enough));
        assert(candidates(entries, policy, now) == brought_down(all, old_enough, projected, limit));
        lemma_oldest_first(entries, 0, old_enough, projected, limit, j, k);
    }
}

/// A plan tells how much is kept and how much of it goes; without a policy nothing goes.
pub proof fn law_plans_tell_what_is_kept_and_what_goes(
    entries: Seq<LogRetentionEntry>,
    policy: Option<RunLogPolicy>,
    now: i64,
    plan: LogMaintenancePlan,
)
    requires
        is_log_plan(entries, policy, now, plan),
    ensures
        kept(entries) <= u64::MAX ==> plan.stored_bytes == kept(entries),
        expiring(plan.candidates@) <= u64::MAX ==> plan.expire_bytes == expiring(plan.candidates@),
        policy is None ==> plan.candidates@.len() == 0 && plan.expire_bytes == 0,
        policy is Some ==> plan.candidates@ == candidates(entries, policy->0, now),
{
}

} // verus!
