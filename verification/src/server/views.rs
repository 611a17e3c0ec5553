//! How rows are shown.
use super::failure::failure;
use super::failure::Failure;
use super::metrics;
use super::services::borrowed_view;
use super::settings::Span;
use crate::domain::config;
use crate::domain::config::ConfigError;
use crate::outside;
use crate::protocol::AttemptView;
use crate::protocol::ChangeAction;
use crate::protocol::ConfigChange;
use crate::protocol::CredentialView;
use crate::protocol::MirrorView;
use crate::protocol::NodeView;
use crate::protocol::PlanResponse;
use crate::protocol::PublicationChange;
use crate::protocol::RunView;
use crate::store::planning;
use crate::store::planning::ChangeKind;
use crate::store::planning::ConfigPlan;
use crate::store::queries::MirrorRecord;
use crate::store::tables::AttemptRecord;
use crate::store::tables::CredentialRecord;
use crate::store::tables::NodeRecord;
use crate::store::tables::RunRecord;
use crate::text;
use vstd::prelude::*;

verus! {

/// True when a moment lies in a year of four digits, so that it can be written.
pub open spec fn writable(ms: i64) -> bool {
    outside::four_digit_year((ms * 1_000_000) as i128)
}

/// True when a moment, where there is one, can be written.
pub open spec fn writable_opt(ms: Option<i64>) -> bool {
    ms is Some ==> writable(ms->0)
}

/// A moment as it is written.
pub open spec fn stamp(ms: i64) -> Seq<char> {
    outside::rfc3339_text((ms * 1_000_000) as i128)
}

/// A moment, where there is one, as it is written.
pub open spec fn stamp_opt(ms: Option<i64>) -> Option<Seq<char>> {
    match ms {
        Some(moment) => Some(stamp(moment)),
        None => None,
    }
}

/// True when a moment can be written.
pub fn can_write(ms: i64) -> (r: bool)
    ensures
        r == writable(ms),
{
    -62_167_219_200_000 <= ms && ms < 253_402_300_800_000
}

/// True when a moment, where there is one, can be written.
pub fn can_write_opt(ms: Option<i64>) -> (r: bool)
    ensures
        r == writable_opt(ms),
{
    match ms {
        Some(moment) => can_write(moment),
        None => true,
    }
}

/// Writes a moment. What is written reads back as the same moment.
pub fn timestamp(ms: i64) -> (r: String)
    requires
        writable(ms),
    ensures
        r@ == stamp(ms),
        outside::rfc3339_nanos(r@) is Some,
        millis_of(outside::rfc3339_nanos(r@)->0 as int) == ms,
{
    outside::format_rfc3339(ms as i128 * 1_000_000)
}

fn timestamp_opt(ms: Option<i64>) -> (r: Option<String>)
    requires
        writable_opt(ms),
    ensures
        text::opt_view(r) == stamp_opt(ms),
{
    match ms {
        Some(moment) => Some(timestamp(moment)),
        None => None,
    }
}

/// The milliseconds of a moment in nanoseconds, towards the epoch.
pub open spec fn millis_of(nanos: int) -> int {
    if nanos >= 0 {
        nanos / 1_000_000
    } else {
        -((-nanos) / 1_000_000)
    }
}

/// Reads a moment, where one is given.
pub fn parse_time(value: Option<&str>) -> (r: Result<Option<i64>, Failure>)
    ensures
        match borrowed_view(value) {
            None => r == Ok::<Option<i64>, Failure>(None),
            Some(written) => match outside::rfc3339_nanos(written) {
                Some(nanos) => r == Ok::<Option<i64>, Failure>(Some(millis_of(nanos as int) as i64)),
                None => r is Err && r->Err_0@ == failure(400, "invalid_timestamp"@, "RFC3339 required"@),
            },
        },
{
    match value {
        None => Ok(None),
        Some(written) => match outside::parse_rfc3339(written) {
            Some(nanos) => Ok(
                Some(
                    if nanos >= 0 {
                        (nanos / 1_000_000) as i64
                    } else {
                        (-((-nanos) / 1_000_000)) as i64
                    },
                ),
            ),
            None => Err(Failure::bad("invalid_timestamp", "RFC3339 required")),
        },
    }
}

/// The whole seconds of a written moment since the epoch; none where it cannot be read or lies
/// before the epoch.
pub open spec fn written_seconds(written: Seq<char>) -> Option<u64> {
    match outside::rfc3339_nanos(written) {
        Some(nanos) => if nanos >= 0 {
            Some((nanos as int / 1_000_000_000) as u64)
        } else {
            None
        },
        None => None,
    }
}

/// The whole seconds of a written moment since the epoch.
pub fn backup_manifest_timestamp_seconds(created_at: &str) -> (r: Option<u64>)
    ensures
        r == written_seconds(created_at@),
{
    match outside::parse_rfc3339(created_at) {
        Some(nanos) => if nanos >= 0 {
            Some((nanos / 1_000_000_000) as u64)
        } else {
            None
        },
        None => None,
    }
}

/// True when every moment of a run can be written.
pub open spec fn run_writable(r: RunRecord) -> bool {
    &&& writable(r.created_at_ms)
    &&& writable_opt(r.started_at_ms)
    &&& writable_opt(r.finished_at_ms)
    &&& writable_opt(r.scheduled_for_at_ms)
    &&& writable_opt(r.retry_due_at_ms)
    &&& writable_opt(r.cancel_requested_at_ms)
}

/// True when every moment of a run can be written.
pub fn can_write_run(r: &RunRecord) -> (ok: bool)
    ensures
        ok == run_writable(*r),
{
    can_write(r.created_at_ms) && can_write_opt(r.started_at_ms) && can_write_opt(r.finished_at_ms) && can_write_opt(
        r.scheduled_for_at_ms,
    ) && can_write_opt(r.retry_due_at_ms) && can_write_opt(r.cancel_requested_at_ms)
}

/// True when a run is shown as it is.
pub open spec fn shows_run(view: RunView, r: RunRecord) -> bool {
    &&& view.id == r.id
    &&& view.mirror_name == r.mirror_name
    &&& view.mirror_generation == r.mirror_generation
    &&& view.owner_node == r.owner_node
    &&& view.trigger == r.trigger
    &&& view.state == r.state
    &&& view.created_at@ == stamp(r.created_at_ms)
    &&& text::opt_view(view.started_at) == stamp_opt(r.started_at_ms)
    &&& text::opt_view(view.finished_at) == stamp_opt(r.finished_at_ms)
    &&& view.final_exit_code == r.final_exit_code
    &&& view.failure_kind == r.failure_kind
    &&& view.failure_message == r.failure_message
    &&& text::opt_view(view.scheduled_for_at) == stamp_opt(r.scheduled_for_at_ms)
    &&& text::opt_view(view.retry_due_at) == stamp_opt(r.retry_due_at_ms)
    &&& text::opt_view(view.cancel_requested_at) == stamp_opt(r.cancel_requested_at_ms)
}

/// Shows a run.
pub fn run_view(r: RunRecord) -> (view: RunView)
    requires
        run_writable(r),
    ensures
        shows_run(view, r),
{
    RunView {
        created_at: timestamp(r.created_at_ms),
        started_at: timestamp_opt(r.started_at_ms),
        finished_at: timestamp_opt(r.finished_at_ms),
        scheduled_for_at: timestamp_opt(r.scheduled_for_at_ms),
        retry_due_at: timestamp_opt(r.retry_due_at_ms),
        cancel_requested_at: timestamp_opt(r.cancel_requested_at_ms),
        id: r.id,
        mirror_name: r.mirror_name,
        mirror_generation: r.mirror_generation,
        owner_node: r.owner_node,
        trigger: r.trigger,
        state: r.state,
        final_exit_code: r.final_exit_code,
        failure_kind: r.failure_kind,
        failure_message: r.failure_message,
    }
}

/// True when every moment of an attempt can be written.
pub open spec fn attempt_writable(a: AttemptRecord) -> bool {
    &&& writable(a.created_at_ms)
    &&& writable_opt(a.accepted_at_ms)
    &&& writable_opt(a.started_at_ms)
    &&& writable_opt(a.finished_at_ms)
}

/// True when every moment of an attempt can be written.
pub fn can_write_attempt(a: &AttemptRecord) -> (ok: bool)
    ensures
        ok == attempt_writable(*a),
{
    can_write(a.created_at_ms) && can_write_opt(a.accepted_at_ms) && can_write_opt(a.started_at_ms) && can_write_opt(
        a.finished_at_ms,
    )
}

/// How an attempt is shown.
pub open spec fn shows_attempt(view: AttemptView, a: AttemptRecord) -> bool {
    &&& view.run_id == a.run_id
    &&& view.attempt_no == a.attempt_no
    &&& view.state == a.state
    &&& view.spec_hash == a.spec_hash
    &&& view.created_at@ == stamp(a.created_at_ms)
    &&& text::opt_view(view.accepted_at) == stamp_opt(a.accepted_at_ms)
    &&& text::opt_view(view.started_at) == stamp_opt(a.started_at_ms)
    &&& text::opt_view(view.finished_at) == stamp_opt(a.finished_at_ms)
    &&& view.exit_code == a.exit_code
    &&& view.failure_kind == a.failure_kind
    &&& view.failure_message == a.failure_message
    &&& view.last_event_sequence == a.last_event_sequence
}

/// Shows an attempt.
pub fn attempt_view(a: AttemptRecord) -> (view: AttemptView)
    requires
        attempt_writable(a),
    ensures
        shows_attempt(view, a),
{
    AttemptView {
        created_at: timestamp(a.created_at_ms),
        accepted_at: timestamp_opt(a.accepted_at_ms),
        started_at: timestamp_opt(a.started_at_ms),
        finished_at: timestamp_opt(a.finished_at_ms),
        run_id: a.run_id,
        attempt_no: a.attempt_no,
        state: a.state,
        spec_hash: a.spec_hash,
        exit_code: a.exit_code,
        failure_kind: a.failure_kind,
        failure_message: a.failure_message,
        last_event_sequence: a.last_event_sequence,
    }
}

/// How a mirror is shown.
pub open spec fn shows_mirror(view: MirrorView, m: MirrorRecord) -> bool {
    &&& view.name == m.name
    &&& view.managed == m.managed
    &&& view.enabled == m.enabled
    &&& view.owner_node == m.owner_node
    &&& view.current_generation == m.current_generation
    &&& text::opt_view(view.next_due_at) == stamp_opt(m.next_due_at_ms)
    &&& text::opt_view(view.scheduled_due_since) == stamp_opt(m.scheduled_due_since_ms)
}

/// Shows a mirror.
pub fn mirror_view(m: MirrorRecord) -> (view: MirrorView)
    requires
        writable_opt(m.next_due_at_ms),
        writable_opt(m.scheduled_due_since_ms),
    ensures
        shows_mirror(view, m),
{
    MirrorView {
        next_due_at: timestamp_opt(m.next_due_at_ms),
        scheduled_due_since: timestamp_opt(m.scheduled_due_since_ms),
        name: m.name,
        managed: m.managed,
        enabled: m.enabled,
        owner_node: m.owner_node,
        current_generation: m.current_generation,
    }
}

/// How a node is shown.
pub open spec fn shows_node(view: NodeView, n: NodeRecord, now: i64, offline_after: Span) -> bool {
    &&& view.name == n.name
    &&& view.agent_version == n.agent_version
    &&& view.agent_instance_id == n.agent_instance_id
    &&& view.bound_agent_id == n.bound_agent_id
    &&& view.agent_boot_id == n.agent_boot_id
    &&& text::opt_view(view.last_seen_at) == stamp_opt(n.last_seen_at_ms)
    &&& view.active_runs == n.active_runs
    &&& view.mirror_root_free_bytes == n.mirror_root_free_bytes
    &&& view.max_concurrent_runs == n.max_concurrent_runs
    &&& view.online == (n.last_seen_at_ms is Some && metrics::elapsed(now, n.last_seen_at_ms->0)
        <= offline_after.cut_millis())
}

/// Shows a node.
pub fn node_view(n: NodeRecord, now: i64, offline_after: Span) -> (view: NodeView)
    requires
        writable_opt(n.last_seen_at_ms),
    ensures
        shows_node(view, n, now, offline_after),
{
    let online: bool = match n.last_seen_at_ms {
        Some(seen) => metrics::elapsed_ms(now, seen) <= offline_after.cut_millis_i64(),
        None => false,
    };
    NodeView {
        last_seen_at: timestamp_opt(n.last_seen_at_ms),
        online,
        name: n.name,
        agent_version: n.agent_version,
        agent_instance_id: n.agent_instance_id,
        bound_agent_id: n.bound_agent_id,
        agent_boot_id: n.agent_boot_id,
        active_runs: n.active_runs,
        mirror_root_free_bytes: n.mirror_root_free_bytes,
        max_concurrent_runs: n.max_concurrent_runs,
    }
}

/// True when every moment of a credential can be written.
pub open spec fn credential_writable(c: CredentialRecord) -> bool {
    writable(c.created_at_ms) && writable_opt(c.last_used_at_ms) && writable_opt(c.revoked_at_ms)
}

/// True when every moment of a credential can be written.
pub fn can_write_credential(c: &CredentialRecord) -> (ok: bool)
    ensures
        ok == credential_writable(*c),
{
    can_write(c.created_at_ms) && can_write_opt(c.last_used_at_ms) && can_write_opt(c.revoked_at_ms)
}

/// How a credential is shown.
pub open spec fn shows_credential(view: CredentialView, c: CredentialRecord) -> bool {
    &&& view.id == c.id
    &&& view.node == c.node
    &&& view.label == c.label
    &&& view.created_at@ == stamp(c.created_at_ms)
    &&& text::opt_view(view.last_used_at) == stamp_opt(c.last_used_at_ms)
    &&& text::opt_view(view.revoked_at) == stamp_opt(c.revoked_at_ms)
}

/// Shows a credential, without anything of its token.
pub fn credential_view(c: CredentialRecord) -> (view: CredentialView)
    requires
        credential_writable(c),
    ensures
        shows_credential(view, c),
{
    CredentialView {
        created_at: timestamp(c.created_at_ms),
        last_used_at: timestamp_opt(c.last_used_at_ms),
        revoked_at: timestamp_opt(c.revoked_at_ms),
        id: c.id,
        node: c.node,
        label: c.label,
    }
}

/// A change as it is shown.
pub open spec fn change_shown(c: planning::ConfigChange) -> ConfigChange {
    ConfigChange {
        action: match c.kind {
            ChangeKind::Create => ChangeAction::Create,
            ChangeKind::Update => ChangeAction::Update,
            ChangeKind::Remove => ChangeAction::Remove,
            ChangeKind::Move => ChangeAction::Move,
        },
        mirror: c.mirror,
        from_generation: c.from_generation,
        to_generation: c.to_generation,
        from_node: c.from_node,
        to_node: c.to_node,
        publication_change: match c.publication_change {
            Some(planning::PublicationChange::DirectToAtomic) => Some(PublicationChange::DirectToAtomic),
            Some(planning::PublicationChange::AtomicToDirect) => Some(PublicationChange::AtomicToDirect),
            None => None,
        },
    }
}

fn show_change(c: &planning::ConfigChange) -> (r: ConfigChange)
    ensures
        r == change_shown(*c),
{
    ConfigChange {
        action: match c.kind {
            ChangeKind::Create => ChangeAction::Create,
            ChangeKind::Update => ChangeAction::Update,
            ChangeKind::Remove => ChangeAction::Remove,
            ChangeKind::Move => ChangeAction::Move,
        },
        mirror: c.mirror.clone(),
        from_generation: c.from_generation,
        to_generation: c.to_generation,
        from_node: text::clone_opt(&c.from_node),
        to_node: text::clone_opt(&c.to_node),
        publication_change: match c.publication_change {
            Some(planning::PublicationChange::DirectToAtomic) => Some(PublicationChange::DirectToAtomic),
            Some(planning::PublicationChange::AtomicToDirect) => Some(PublicationChange::AtomicToDirect),
            None => None,
        },
    }
}

/// Shows the changes of a plan.
pub fn change_views(changes: &Vec<planning::ConfigChange>) -> (r: Vec<ConfigChange>)
    ensures
        r@ == changes@.map_values(|change: planning::ConfigChange| change_shown(change)),
{
    let mut out: Vec<ConfigChange> = Vec::new();
    let mut i: usize = 0;
    while i < changes.len()
        invariant
            i <= changes.len(),
            out@.len() == i,
            forall|k: int| 0 <= k < i ==> (#[trigger] out@[k]) == change_shown(changes@[k]),
        decreases changes.len() - i,
    {
        out.push(show_change(&changes[i]));
        i = i + 1;
    }
    assert(out@ == changes@.map_values(|change: planning::ConfigChange| change_shown(change)));
    out
}

/// How a plan is shown.
pub open spec fn shows_plan(r: PlanResponse, plan: ConfigPlan) -> bool {
    &&& r.base_revision == plan.base_revision
    &&& r.bundle_hash == plan.bundle_hash
    &&& r.changes@ == plan.changes@.map_values(|change: planning::ConfigChange| change_shown(change))
}

/// Shows a plan.
pub fn plan_view(plan: ConfigPlan) -> (r: PlanResponse)
    ensures
        shows_plan(r, plan),
{
    let changes: Vec<ConfigChange> = change_views(&plan.changes);
    PlanResponse { base_revision: plan.base_revision, bundle_hash: plan.bundle_hash, changes }
}

/// The messages of some configuration errors.
pub open spec fn error_messages(errors: Seq<ConfigError>) -> Seq<Seq<char>> {
    errors.map_values(|error: ConfigError| config::fault_message(error@))
}

/// Some texts with a separator between each two.
pub open spec fn joined_by(parts: Seq<Seq<char>>, separator: Seq<char>) -> Seq<char>
    decreases parts.len(),
{
    if parts.len() == 0 {
        Seq::empty()
    } else if parts.len() == 1 {
        parts[0]
    } else {
        joined_by(parts.drop_last(), separator) + separator + parts.last()
    }
}

/// The messages of some configuration errors.
pub fn messages(errors: &Vec<ConfigError>) -> (r: Vec<String>)
    ensures
        text::views(r@) == error_messages(errors@),
{
    let mut out: Vec<String> = Vec::new();
    let mut i: usize = 0;
    while i < errors.len()
        invariant
            i <= errors.len(),
            out@.len() == i,
            forall|k: int| 0 <= k < i ==> (#[trigger] out@[k])@ == config::fault_message(errors@[k]@),
        decreases errors.len() - i,
    {
        out.push(errors[i].message());
        i = i + 1;
    }
    assert(text::views(out@) == error_messages(errors@));
    out
}

/// Some texts with a separator between each two.
pub fn join_with(parts: &Vec<String>, separator: &str) -> (r: String)
    ensures
        r@ == joined_by(text::views(parts@), separator@),
{
    let ghost all = text::views(parts@);
    let mut out: String = "".to_owned();
    proof {
        reveal_strlit("");
        assert(out@ =~= Seq::empty());
    }
    let mut i: usize = 0;
    assert(all.take(0) =~= Seq::empty());
    while i < parts.len()
        invariant
            i <= parts.len(),
            all == text::views(parts@),
            out@ == joined_by(all.take(i as int), separator@),
        decreases parts.len() - i,
    {
        proof {
            assert(all.take(i + 1).drop_last() == all.take(i as int));
            assert(all.take(i + 1).last() == parts@[i as int]@);
        }
        if i > 0 {
            out.append(separator);
        }
        out.append(parts[i].as_str());
        proof {
            if i == 0 {
                assert(out@ =~= all.take(1)[0]);
            }
        }
        i = i + 1;
    }
    assert(all.take(all.len() as int) == all);
    out
}

/// How a request fails whose configuration is refused: with every message.
pub fn config_error(errors: &Vec<ConfigError>) -> (r: Failure)
    ensures
        r@ == failure(400, "config_invalid"@, joined_by(error_messages(errors@), "; "@)),
{
    let all: Vec<String> = messages(errors);
    Failure::bad("config_invalid", join_with(&all, "; ").as_str())
}

/// What is shown of a run and of an attempt is what is known of it, each moment as the one it is.
pub proof fn law_records_are_shown_as_they_are(run: RunView, r: RunRecord, attempt: AttemptView, a: AttemptRecord)
    requires
        shows_run(run, r),
        shows_attempt(attempt, a),
    ensures
        run.id == r.id && run.mirror_name == r.mirror_name && run.owner_node == r.owner_node && run.state == r.state
            && run.trigger == r.trigger && run.mirror_generation == r.mirror_generation,
        run.final_exit_code == r.final_exit_code && run.failure_kind == r.failure_kind && run.failure_message
            == r.failure_message,
        run.created_at@ == stamp(r.created_at_ms),
        run.started_at is Some <==> r.started_at_ms is Some,
        run.started_at is Some ==> run.started_at->0@ == stamp(r.started_at_ms->0),
        run.finished_at is Some <==> r.finished_at_ms is Some,
        run.finished_at is Some ==> run.finished_at->0@ == stamp(r.finished_at_ms->0),
        run.scheduled_for_at is Some <==> r.scheduled_for_at_ms is Some,
        run.scheduled_for_at is Some ==> run.scheduled_for_at->0@ == stamp(r.scheduled_for_at_ms->0),
        run.retry_due_at is Some <==> r.retry_due_at_ms is Some,
        run.retry_due_at is Some ==> run.retry_due_at->0@ == stamp(r.retry_due_at_ms->0),
        run.cancel_requested_at is Some <==> r.cancel_requested_at_ms is Some,
        run.cancel_requested_at is Some ==> run.cancel_requested_at->0@ == stamp(r.cancel_requested_at_ms->0),
        attempt.run_id == a.run_id && attempt.attempt_no == a.attempt_no && attempt.state == a.state && attempt.spec_hash
            == a.spec_hash && attempt.exit_code == a.exit_code && attempt.failure_kind == a.failure_kind
            && attempt.failure_message == a.failure_message && attempt.last_event_sequence == a.last_event_sequence,
        attempt.created_at@ == stamp(a.created_at_ms),
        attempt.accepted_at is Some <==> a.accepted_at_ms is Some,
        attempt.accepted_at is Some ==> attempt.accepted_at->0@ == stamp(a.accepted_at_ms->0),
        attempt.started_at is Some <==> a.started_at_ms is Some,
        attempt.started_at is Some ==> attempt.started_at->0@ == stamp(a.started_at_ms->0),
        attempt.finished_at is Some <==> a.finished_at_ms is Some,
        attempt.finished_at is Some ==> attempt.finished_at->0@ == stamp(a.finished_at_ms->0),
{
}

/// What is shown of a mirror, a node and a credential is what is known of it; a node is online where it was seen
/// no longer ago than nodes may be silent.
pub proof fn law_rows_are_shown_as_they_are(
    mirror: MirrorView,
    m: MirrorRecord,
    node: NodeView,
    n: NodeRecord,
    now: i64,
    offline_after: Span,
    credential: CredentialView,
    c: CredentialRecord,
)
    requires
        shows_mirror(mirror, m),
        shows_node(node, n, now, offline_after),
        shows_credential(credential, c),
    ensures
        mirror.name == m.name && mirror.managed == m.managed && mirror.enabled == m.enabled && mirror.owner_node
            == m.owner_node && mirror.current_generation == m.current_generation,
        mirror.next_due_at is Some <==> m.next_due_at_ms is Some,
        mirror.next_due_at is Some ==> mirror.next_due_at->0@ == stamp(m.next_due_at_ms->0),
        mirror.scheduled_due_since is Some <==> m.scheduled_due_since_ms is Some,
        mirror.scheduled_due_since is Some ==> mirror.scheduled_due_since->0@ == stamp(m.scheduled_due_since_ms->0),
        node.name == n.name && node.agent_version == n.agent_version && node.agent_instance_id == n.agent_instance_id
            && node.bound_agent_id == n.bound_agent_id && node.agent_boot_id == n.agent_boot_id && node.active_runs
            == n.active_runs && node.max_concurrent_runs == n.max_concurrent_runs && node.mirror_root_free_bytes
            == n.mirror_root_free_bytes,
        n.last_seen_at_ms is None ==> !node.online && node.last_seen_at is None,
        n.last_seen_at_ms is Some && i64::MIN <= now - n.last_seen_at_ms->0 <= i64::MAX && offline_after.millis() <= i64::MAX
            ==> (node.online <==> now - n.last_seen_at_ms->0 <= offline_after.millis()),
        n.last_seen_at_ms is Some ==> node.last_seen_at is Some && node.last_seen_at->0@ == stamp(n.last_seen_at_ms->0),
        credential.id == c.id && credential.node == c.node && credential.label == c.label,
        credential.created_at@ == stamp(c.created_at_ms),
        credential.last_used_at is Some <==> c.last_used_at_ms is Some,
        credential.last_used_at is Some ==> credential.last_used_at->0@ == stamp(c.last_used_at_ms->0),
        credential.revoked_at is Some <==> c.revoked_at_ms is Some,
        credential.revoked_at is Some ==> credential.revoked_at->0@ == stamp(c.revoked_at_ms->0),
{
}

/// A plan is shown change by change, each as what it is.
pub proof fn law_plans_are_shown_change_by_change(r: PlanResponse, plan: ConfigPlan, i: int)
    requires
        shows_plan(r, plan),
        0 <= i < plan.changes@.len(),
    ensures
        r.base_revision == plan.base_revision,
        r.bundle_hash == plan.bundle_hash,
        r.changes@.len() == plan.changes@.len(),
        r.changes@[i].mirror == plan.changes@[i].mirror,
        r.changes@[i].action == ChangeAction::Create <==> plan.changes@[i].kind == ChangeKind::Create,
        r.changes@[i].action == ChangeAction::Update <==> plan.changes@[i].kind == ChangeKind::Update,
        r.changes@[i].action == ChangeAction::Remove <==> plan.changes@[i].kind == ChangeKind::Remove,
        r.changes@[i].action == ChangeAction::Move <==> plan.changes@[i].kind == ChangeKind::Move,
        r.changes@[i].from_generation == plan.changes@[i].from_generation,
        r.changes@[i].to_generation == plan.changes@[i].to_generation,
        r.changes@[i].from_node == plan.changes@[i].from_node,
        r.changes@[i].to_node == plan.changes@[i].to_node,
        r.changes@[i].publication_change == Some(PublicationChange::DirectToAtomic) <==> plan.changes@[i].publication_change
            == Some(planning::PublicationChange::DirectToAtomic),
        r.changes@[i].publication_change == Some(PublicationChange::AtomicToDirect) <==> plan.changes@[i].publication_change
            == Some(planning::PublicationChange::AtomicToDirect),
{
}

/// A moment is written in thousandths of a second and read back in them, what is less left out towards zero.
pub proof fn law_moments_are_cut_to_thousandths(nanos: int)
    ensures
        nanos >= 0 ==> millis_of(nanos) * 1_000_000 <= nanos < (millis_of(nanos) + 1) * 1_000_000,
        millis_of(-nanos) == -millis_of(nanos),
{
}

} // verus!
