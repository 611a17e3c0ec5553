//! How the control plane stands, and what is wrong with it.
use super::metrics;
use super::observation::PublicationObservation;
use super::settings::Span;
use crate::protocol::DoctorCheck;
use crate::protocol::DoctorCheckStatus;
use crate::protocol::DoctorResponse;
use crate::protocol::MirrorStatusView;
use crate::protocol::NodeStatusView;
use crate::protocol::PublicationHealth;
use crate::protocol::StatusResponse;
use crate::store::queries::MirrorOperationalRecord;
use crate::store::queries::OperationalCounts;
use crate::store::tables::NodeRecord;
use crate::text;
use vstd::prelude::*;

verus! {

/// How a mirror stands, as it is shown.
pub open spec fn mirror_status(m: MirrorOperationalRecord) -> MirrorStatusView {
    MirrorStatusView {
        name: m.name,
        node: m.owner_node,
        enabled: m.enabled,
        current_run_state: m.current_run_state,
        current_run_created_at_ms: m.current_run_created_at_ms,
        last_run_state: m.last_run_state,
        last_terminal_at_ms: m.last_terminal_at_ms,
        last_success_at_ms: m.last_success_at_ms,
        next_due_at_ms: m.next_due_at_ms,
        due_since_ms: m.due_since_ms,
    }
}

/// What was seen of publication on a node: the first entry under its name.
pub open spec fn observed(observations: Seq<(String, PublicationObservation)>, node: Seq<char>) -> Option<
    PublicationObservation,
>
    decreases observations.len(),
{
    if observations.len() == 0 {
        None
    } else if observations[0].0@ == node {
        Some(observations[0].1)
    } else {
        observed(observations.drop_first(), node)
    }
}

/// How a node stands, as it is shown.
pub open spec fn node_status(
    n: NodeRecord,
    publication: Option<PublicationObservation>,
    now: i64,
    offline_after: Span,
) -> NodeStatusView {
    NodeStatusView {
        name: n.name,
        online: metrics::is_online(n.last_seen_at_ms, now, offline_after),
        bound: n.bound_agent_id is Some,
        last_seen_at_ms: n.last_seen_at_ms,
        active_runs: n.active_runs,
        max_concurrent_runs: n.max_concurrent_runs,
        mirror_root_free_bytes: n.mirror_root_free_bytes,
        atomic_publication_capable: match publication {
            Some(seen) => Some(seen.atomic_capable),
            None => None,
        },
        publication_health: match publication {
            Some(seen) => Some(seen.cumulative),
            None => None,
        },
    }
}

/// The place of what was seen of publication on a node.
pub fn find_observation(observations: &Vec<(String, PublicationObservation)>, node: &str) -> (r: Option<usize>)
    ensures
        match r {
            Some(i) => i < observations@.len() && observed(observations@, node@) == Some(observations@[i as int].1)
                && observations@[i as int].0@ == node@ && forall|k: int|
                0 <= k < i ==> (#[trigger] observations@[k]).0@ != node@,
            None => observed(observations@, node@) is None && forall|k: int|
                0 <= k < observations@.len() ==> (#[trigger] observations@[k]).0@ != node@,
        },
{
    let mut i: usize = 0;
    assert(observations@.subrange(0, observations@.len() as int) == observations@);
    while i < observations.len()
        invariant
            i <= observations.len(),
            observed(observations@, node@) == observed(
                observations@.subrange(i as int, observations@.len() as int),
                node@,
            ),
            forall|k: int| 0 <= k < i ==> (#[trigger] observations@[k]).0@ != node@,
        decreases observations.len() - i,
    {
        let ghost rest = observations@.subrange(i as int, observations@.len() as int);
        assert(rest[0] == observations@[i as int]);
        assert(rest.drop_first() == observations@.subrange(i + 1, observations@.len() as int));
        if text::same(observations[i].0.as_str(), node) {
            return Some(i);
        }
        i = i + 1;
    }
    None
}

fn mirror_statuses(mirrors: Vec<MirrorOperationalRecord>) -> (r: Vec<MirrorStatusView>)
    ensures
        r@ == mirrors@.map_values(|m: MirrorOperationalRecord| mirror_status(m)),
{
    let ghost all = mirrors@;
    let mut out: Vec<MirrorStatusView> = Vec::new();
    for m in it: mirrors
        invariant
            it.seq() == all,
            out@.len() == it.index(),
            forall|k: int| 0 <= k < it.index() ==> (#[trigger] out@[k]) == mirror_status(all[k]),
    {
        out.push(
            MirrorStatusView {
                name: m.name,
                node: m.owner_node,
                enabled: m.enabled,
                current_run_state: m.current_run_state,
                current_run_created_at_ms: m.current_run_created_at_ms,
                last_run_state: m.last_run_state,
                last_terminal_at_ms: m.last_terminal_at_ms,
                last_success_at_ms: m.last_success_at_ms,
                next_due_at_ms: m.next_due_at_ms,
                due_since_ms: m.due_since_ms,
            },
        );
    }
    assert(out@ == all.map_values(|m: MirrorOperationalRecord| mirror_status(m)));
    out
}

fn node_statuses(
    nodes: Vec<NodeRecord>,
    observations: &Vec<(String, PublicationObservation)>,
    now: i64,
    offline_after: Span,
) -> (r: Vec<NodeStatusView>)
    ensures
        r@ == nodes@.map_values(
            |n: NodeRecord| node_status(n, observed(observations@, n.name@), now, offline_after),
        ),
{
    let ghost all = nodes@;
    let mut out: Vec<NodeStatusView> = Vec::new();
    for n in it: nodes
        invariant
            it.seq() == all,
            out@.len() == it.index(),
            forall|k: int|
                0 <= k < it.index() ==> (#[trigger] out@[k]) == node_status(
                    all[k],
                    observed(observations@, all[k].name@),
                    now,
                    offline_after,
                ),
    {
        let (capable, health): (Option<bool>, Option<PublicationHealth>) = match find_observation(
            observations,
            n.name.as_str(),
        ) {
            Some(i) => (Some(observations[i].1.atomic_capable), Some(observations[i].1.cumulative)),
            None => (None, None),
        };
        out.push(
            NodeStatusView {
                online: metrics::online(n.last_seen_at_ms, now, offline_after),
                bound: n.bound_agent_id.is_some(),
                last_seen_at_ms: n.last_seen_at_ms,
                active_runs: n.active_runs,
                max_concurrent_runs: n.max_concurrent_runs,
                mirror_root_free_bytes: n.mirror_root_free_bytes,
                atomic_publication_capable: capable,
                publication_health: health,
                name: n.name,
            },
        );
    }
    assert(out@ == all.map_values(
        |n: NodeRecord| node_status(n, observed(observations@, n.name@), now, offline_after),
    ));
    out
}

/// What the operator is shown of everything.
pub open spec fn shows_status(
    version: Seq<char>,
    schema_version: u32,
    config_revision: u64,
    counts: OperationalCounts,
    mirrors: Seq<MirrorOperationalRecord>,
    nodes: Seq<NodeRecord>,
    observations: Seq<(String, PublicationObservation)>,
    now: i64,
    offline_after: Span,
    r: StatusResponse,
) -> bool {
    &&& r.version@ == version
    &&& r.schema_version == schema_version
    &&& r.config_revision == config_revision
    &&& r.runs_pending == counts.pending_runs
    &&& r.runs_running == counts.running_runs
    &&& r.mirrors_due == counts.due_mirrors
    &&& r.run_logs_stored_bytes == counts.stored_log_bytes
    &&& r.mirrors@ == mirrors.map_values(|m: MirrorOperationalRecord| mirror_status(m))
    &&& r.nodes@ == nodes.map_values(
        |n: NodeRecord| node_status(n, observed(observations, n.name@), now, offline_after),
    )
}

/// How the control plane stands. Nothing of configurations and tokens is shown.
pub fn operational_status(
    version: &str,
    schema_version: u32,
    config_revision: u64,
    counts: OperationalCounts,
    mirrors: Vec<MirrorOperationalRecord>,
    nodes: Vec<NodeRecord>,
    observations: &Vec<(String, PublicationObservation)>,
    now: i64,
    offline_after: Span,
) -> (r: StatusResponse)
    ensures
        shows_status(
            version@,
            schema_version,
            config_revision,
            counts,
            mirrors@,
            nodes@,
            observations@,
            now,
            offline_after,
            r,
        ),
{
    StatusResponse {
        version: version.to_owned(),
        schema_version,
        config_revision,
        runs_pending: counts.pending_runs,
        runs_running: counts.running_runs,
        mirrors_due: counts.due_mirrors,
        run_logs_stored_bytes: counts.stored_log_bytes,
        mirrors: mirror_statuses(mirrors),
        nodes: node_statuses(nodes, observations, now, offline_after),
    }
}

/// What a check holds.
pub open spec fn check_view(check: DoctorCheck) -> (Seq<char>, DoctorCheckStatus, Seq<char>) {
    (check.id@, check.status, check.message@)
}

/// What some checks hold.
pub open spec fn check_views(checks: Seq<DoctorCheck>) -> Seq<(Seq<char>, DoctorCheckStatus, Seq<char>)> {
    checks.map_values(|check: DoctorCheck| check_view(check))
}

/// Makes a check.
pub fn doctor_check(id: &str, status: DoctorCheckStatus, message: &str) -> (r: DoctorCheck)
    ensures
        check_view(r) == (id@, status, message@),
{
    DoctorCheck { id: id.to_owned(), status, message: message.to_owned() }
}

/// Nothing is wrong while a count is zero; else as bad as given.
pub open spec fn unless_none(count: nat, otherwise: DoctorCheckStatus) -> DoctorCheckStatus {
    if count == 0 {
        DoctorCheckStatus::Healthy
    } else {
        otherwise
    }
}

fn when_none(count: u64, otherwise: DoctorCheckStatus) -> (r: DoctorCheckStatus)
    ensures
        r == unless_none(count as nat, otherwise),
{
    if count == 0 {
        DoctorCheckStatus::Healthy
    } else {
        otherwise
    }
}

/// How many of some nodes report publication, cannot publish at once, and are degraded.
pub open spec fn publication_counts(nodes: Seq<NodeStatusView>) -> (nat, nat, nat)
    decreases nodes.len(),
{
    if nodes.len() == 0 {
        (0, 0, 0)
    } else {
        let (reporting, incapable, degraded) = publication_counts(nodes.drop_last());
        match nodes.last().publication_health {
            None => (reporting, incapable, degraded),
            Some(health) => (
                reporting + 1,
                if nodes.last().atomic_publication_capable == Some(true) {
                    incapable
                } else {
                    incapable + 1
                },
                if health.degraded {
                    degraded + 1
                } else {
                    degraded
                },
            ),
        }
    }
}

/// A sum held to 32 bits.
pub open spec fn capped32(total: nat) -> nat {
    if total > u32::MAX {
        u32::MAX as nat
    } else {
        total
    }
}

/// How many fences, and how many recoveries, some nodes report.
pub open spec fn publication_records(nodes: Seq<NodeStatusView>) -> (nat, nat)
    decreases nodes.len(),
{
    if nodes.len() == 0 {
        (0, 0)
    } else {
        let (fenced, recovery) = publication_records(nodes.drop_last());
        match nodes.last().publication_health {
            None => (fenced, recovery),
            Some(health) => (fenced + health.fenced_records as nat, recovery + health.recovery_records as nat),
        }
    }
}

/// The checks of publication.
pub open spec fn publication_checks(nodes: Seq<NodeStatusView>) -> Seq<(Seq<char>, DoctorCheckStatus, Seq<char>)> {
    let (reporting, incapable, degraded) = publication_counts(nodes);
    let fenced = capped32(publication_records(nodes).0);
    let recovery = capped32(publication_records(nodes).1);
    seq![
        (
            "publication.capability"@,
            unless_none(incapable, DoctorCheckStatus::Critical),
            text::decimal(reporting) + " publication-configured Agent(s), "@ + text::decimal(incapable)
                + " without atomic_exchange_v1"@,
        ),
        (
            "publication.health"@,
            if fenced > 0 || recovery > 0 {
                DoctorCheckStatus::Critical
            } else {
                unless_none(degraded, DoctorCheckStatus::Warning)
            },
            text::decimal(degraded) + " degraded Agent(s), "@ + text::decimal(fenced) + " fence record(s), "@ + (
            text::decimal(recovery) + " recovery record(s)"@),
        ),
    ]
}

/// Checks publication on the nodes.
pub fn publication_doctor_checks(status: &StatusResponse) -> (r: Vec<DoctorCheck>)
    ensures
        check_views(r@) == publication_checks(status.nodes@),
{
    let mut reporting: u64 = 0;
    let mut incapable: u64 = 0;
    let mut degraded: u64 = 0;
    let mut fenced: u32 = 0;
    let mut recovery: u32 = 0;
    let mut i: usize = 0;
    while i < status.nodes.len()
        invariant
            i <= status.nodes.len(),
            (reporting as nat, incapable as nat, degraded as nat) == publication_counts(status.nodes@.take(i as int)),
            reporting <= i,
            incapable <= i,
            degraded <= i,
            fenced == capped32(publication_records(status.nodes@.take(i as int)).0),
            recovery == capped32(publication_records(status.nodes@.take(i as int)).1),
        decreases status.nodes.len() - i,
    {
        assert(status.nodes@.take(i + 1).drop_last() == status.nodes@.take(i as int));
        let node: &NodeStatusView = &status.nodes[i];
        if let Some(health) = node.publication_health {
            reporting = reporting + 1;
            let able: bool = match node.atomic_publication_capable {
                Some(value) => value,
                None => false,
            };
            if !able {
                incapable = incapable + 1;
            }
            if health.degraded {
                degraded = degraded + 1;
            }
            fenced = fenced.saturating_add(health.fenced_records);
            recovery = recovery.saturating_add(health.recovery_records);
        }
        i = i + 1;
    }
    assert(status.nodes@.take(status.nodes@.len() as int) == status.nodes@);
    let r: Vec<DoctorCheck> = vec![
        doctor_check(
            "publication.capability",
            when_none(incapable, DoctorCheckStatus::Critical),
            text::join4(
                text::decimal_text(reporting).as_str(),
                " publication-configured Agent(s), ",
                text::decimal_text(incapable).as_str(),
                " without atomic_exchange_v1",
            ).as_str(),
        ),
        doctor_check(
            "publication.health",
            if fenced > 0 || recovery > 0 {
                DoctorCheckStatus::Critical
            } else {
                when_none(degraded, DoctorCheckStatus::Warning)
            },
            text::join5(
                text::decimal_text(degraded).as_str(),
                " degraded Agent(s), ",
                text::decimal_text(fenced as u64).as_str(),
                " fence record(s), ",
                text::join2(text::decimal_text(recovery as u64).as_str(), " recovery record(s)").as_str(),
            ).as_str(),
        ),
    ];
    assert(check_views(r@) =~= publication_checks(status.nodes@));
    r
}

/// How many of some nodes are offline, and how many are bound to no agent.
pub open spec fn node_faults(nodes: Seq<NodeStatusView>) -> (nat, nat)
    decreases nodes.len(),
{
    if nodes.len() == 0 {
        (0, 0)
    } else {
        let (offline, unbound) = node_faults(nodes.drop_last());
        (
            if nodes.last().online {
                offline
            } else {
                offline + 1
            },
            if nodes.last().bound {
                unbound
            } else {
                unbound + 1
            },
        )
    }
}

/// Twice a span in milliseconds, held to what a moment can be written with.
pub open spec fn stale_after(offline_after: Span) -> int {
    if metrics::span_ms(offline_after) * 2 > i64::MAX {
        i64::MAX as int
    } else {
        metrics::span_ms(offline_after) * 2
    }
}

/// How many of some mirrors have had a run in flight for suspiciously long.
pub open spec fn count_stale(mirrors: Seq<MirrorStatusView>, now: i64, offline_after: Span) -> nat
    decreases mirrors.len(),
{
    if mirrors.len() == 0 {
        0
    } else {
        let created = mirrors.last().current_run_created_at_ms;
        count_stale(mirrors.drop_last(), now, offline_after) + (if created is Some && metrics::elapsed(now, created->0)
            > stale_after(offline_after) {
            1nat
        } else {
            0nat
        })
    }
}

/// What is known of backups.
#[derive(Debug, PartialEq, Eq)]
pub enum BackupState {
    /// No place for backups is set up.
    Unconfigured,
    /// No backup has been completed.
    Missing,
    /// When the latest backup was made.
    Latest(String),
}

/// The check of backups, where a place for them is set up.
pub open spec fn backup_checks(backup: BackupState) -> Seq<(Seq<char>, DoctorCheckStatus, Seq<char>)> {
    match backup {
        BackupState::Unconfigured => Seq::empty(),
        BackupState::Missing => seq![("backup.latest"@, DoctorCheckStatus::Warning, "no completed backup"@)],
        BackupState::Latest(created_at) => seq![
            ("backup.latest"@, DoctorCheckStatus::Healthy, "latest backup "@ + created_at@),
        ],
    }
}

/// Checks backups.
pub fn backup_doctor_check(backup: &BackupState) -> (r: Option<DoctorCheck>)
    ensures
        match r {
            Some(check) => backup_checks(*backup) == seq![check_view(check)],
            None => backup_checks(*backup).len() == 0,
        },
{
    match backup {
        BackupState::Unconfigured => None,
        BackupState::Missing => Some(
            doctor_check("backup.latest", DoctorCheckStatus::Warning, "no completed backup"),
        ),
        BackupState::Latest(created_at) => Some(
            doctor_check(
                "backup.latest",
                DoctorCheckStatus::Healthy,
                text::join2("latest backup ", created_at.as_str()).as_str(),
            ),
        ),
    }
}

/// The checks of what is under way.
pub open spec fn operational_checks(
    status: StatusResponse,
    now: i64,
    offline_after: Span,
    missing_logs: u64,
    backup: BackupState,
    deprecated_inline_credentials: bool,
) -> Seq<(Seq<char>, DoctorCheckStatus, Seq<char>)> {
    let (offline, unbound) = node_faults(status.nodes@);
    let stale = count_stale(status.mirrors@, now, offline_after);
    seq![
        (
            "nodes.online"@,
            unless_none(offline, DoctorCheckStatus::Critical),
            text::decimal(offline) + " offline Node(s)"@,
        ),
        (
            "agents.binding"@,
            unless_none(unbound, DoctorCheckStatus::Warning),
            text::decimal(unbound) + " unbound Node(s)"@,
        ),
    ] + publication_checks(status.nodes@) + seq![
        (
            "mirrors.due"@,
            unless_none(status.mirrors_due as nat, DoctorCheckStatus::Warning),
            text::decimal(status.mirrors_due as nat) + " due Mirror(s)"@,
        ),
        (
            "runs.stale_nonterminal"@,
            unless_none(stale, DoctorCheckStatus::Warning),
            text::decimal(stale) + " suspicious stale Run(s)"@,
        ),
        (
            "logs.files"@,
            unless_none(missing_logs as nat, DoctorCheckStatus::Critical),
            text::decimal(missing_logs as nat) + " unexpected missing Run-log file(s)"@,
        ),
    ] + backup_checks(backup) + seq![
        (
            "credentials.inline_deprecated"@,
            if deprecated_inline_credentials {
                DoctorCheckStatus::Warning
            } else {
                DoctorCheckStatus::Healthy
            },
            if deprecated_inline_credentials {
                "deprecated inline credentials are configured"@
            } else {
                "no deprecated inline credentials configured"@
            },
        ),
    ]
}

fn counted_check(id: &str, count: u64, otherwise: DoctorCheckStatus, suffix: &str) -> (r: DoctorCheck)
    ensures
        check_view(r) == (id@, unless_none(count as nat, otherwise), text::decimal(count as nat) + suffix@),
{
    doctor_check(id, when_none(count, otherwise), text::join2(text::decimal_text(count).as_str(), suffix).as_str())
}

fn count_node_faults(nodes: &Vec<NodeStatusView>) -> (r: (u64, u64))
    ensures
        (r.0 as nat, r.1 as nat) == node_faults(nodes@),
{
    let mut offline: u64 = 0;
    let mut unbound: u64 = 0;
    let mut i: usize = 0;
    while i < nodes.len()
        invariant
            i <= nodes.len(),
            (offline as nat, unbound as nat) == node_faults(nodes@.take(i as int)),
            offline <= i,
            unbound <= i,
        decreases nodes.len() - i,
    {
        assert(nodes@.take(i + 1).drop_last() == nodes@.take(i as int));
        if !nodes[i].online {
            offline = offline + 1;
        }
        if !nodes[i].bound {
            unbound = unbound + 1;
        }
        i = i + 1;
    }
    assert(nodes@.take(nodes@.len() as int) == nodes@);
    (offline, unbound)
}

fn count_stale_runs(mirrors: &Vec<MirrorStatusView>, now: i64, offline_after: Span) -> (r: u64)
    ensures
        r == count_stale(mirrors@, now, offline_after),
{
    let limit: i64 = match offline_after.millis_i64().checked_mul(2) {
        Some(value) => value,
        None => i64::MAX,
    };
    let mut stale: u64 = 0;
    let mut i: usize = 0;
    while i < mirrors.len()
        invariant
            i <= mirrors.len(),
            limit == stale_after(offline_after),
            stale == count_stale(mirrors@.take(i as int), now, offline_after),
            stale <= i,
        decreases mirrors.len() - i,
    {
        assert(mirrors@.take(i + 1).drop_last() == mirrors@.take(i as int));
        if let Some(created) = mirrors[i].current_run_created_at_ms {
            if metrics::elapsed_ms(now, created) > limit {
                stale = stale + 1;
            }
        }
        i = i + 1;
    }
    assert(mirrors@.take(mirrors@.len() as int) == mirrors@);
    stale
}

/// Checks what is under way.
pub fn doctor_operational_checks(
    status: &StatusResponse,
    now: i64,
    offline_after: Span,
    missing_logs: u64,
    backup: &BackupState,
    deprecated_inline_credentials: bool,
) -> (r: Vec<DoctorCheck>)
    ensures
        check_views(r@) == operational_checks(
            *status,
            now,
            offline_after,
            missing_logs,
            *backup,
            deprecated_inline_credentials,
        ),
{
    let (offline, unbound): (u64, u64) = count_node_faults(&status.nodes);
    let mut checks: Vec<DoctorCheck> = vec![
        counted_check("nodes.online", offline, DoctorCheckStatus::Critical, " offline Node(s)"),
        counted_check("agents.binding", unbound, DoctorCheckStatus::Warning, " unbound Node(s)"),
    ];
    let mut publication: Vec<DoctorCheck> = publication_doctor_checks(status);
    let ghost first = checks@;
    let ghost second = publication@;
    checks.append(&mut publication);
    assert(checks@ == first + second);
    checks.push(
        counted_check("mirrors.due", status.mirrors_due, DoctorCheckStatus::Warning, " due Mirror(s)"),
    );
    let stale: u64 = count_stale_runs(&status.mirrors, now, offline_after);
    checks.push(
        counted_check("runs.stale_nonterminal", stale, DoctorCheckStatus::Warning, " suspicious stale Run(s)"),
    );
    checks.push(
        counted_check(
            "logs.files",
            missing_logs,
            DoctorCheckStatus::Critical,
            " unexpected missing Run-log file(s)",
        ),
    );
    if let Some(check) = backup_doctor_check(backup) {
        checks.push(check);
    }
    checks.push(
        doctor_check(
            "credentials.inline_deprecated",
            if deprecated_inline_credentials {
                DoctorCheckStatus::Warning
            } else {
                DoctorCheckStatus::Healthy
            },
            if deprecated_inline_credentials {
                "deprecated inline credentials are configured"
            } else {
                "no deprecated inline credentials configured"
            },
        ),
    );
    assert(check_views(checks@) =~= operational_checks(
        *status,
        now,
        offline_after,
        missing_logs,
        *backup,
        deprecated_inline_credentials,
    )) by {
        assert(check_views(first) =~= operational_checks(
            *status,
            now,
            offline_after,
            missing_logs,
            *backup,
            deprecated_inline_credentials,
        ).take(2));
        assert(check_views(second) == publication_checks(status.nodes@));
        assert forall|k: int| 0 <= k < 2 implies check_view(checks@[2 + k]) == publication_checks(status.nodes@)[k] by {
            assert(checks@[2 + k] == second[k]);
            assert(check_views(second)[k] == check_view(second[k]));
        }
    }
    checks
}

/// The first checks: version, integrity of the database and revision.
pub fn doctor_head(status: &StatusResponse, database_ok: bool) -> (r: Vec<DoctorCheck>)
    ensures
        check_views(r@) == seq![
            (
                "server.version"@,
                DoctorCheckStatus::Healthy,
                "LMT "@ + status.version@ + " schema "@ + text::decimal(status.schema_version as nat),
            ),
            (
                "database.quick_check"@,
                if database_ok {
                    DoctorCheckStatus::Healthy
                } else {
                    DoctorCheckStatus::Critical
                },
                if database_ok {
                    "SQLite quick_check passed"@
                } else {
                    "SQLite quick_check failed"@
                },
            ),
            (
                "config.revision"@,
                DoctorCheckStatus::Healthy,
                "configuration revision "@ + text::decimal(status.config_revision as nat),
            ),
        ],
{
    let r: Vec<DoctorCheck> = vec![
        doctor_check(
            "server.version",
            DoctorCheckStatus::Healthy,
            text::join4(
                "LMT ",
                status.version.as_str(),
                " schema ",
                text::decimal_text(status.schema_version as u64).as_str(),
            ).as_str(),
        ),
        doctor_check(
            "database.quick_check",
            if database_ok {
                DoctorCheckStatus::Healthy
            } else {
                DoctorCheckStatus::Critical
            },
            if database_ok {
                "SQLite quick_check passed"
            } else {
                "SQLite quick_check failed"
            },
        ),
        doctor_check(
            "config.revision",
            DoctorCheckStatus::Healthy,
            text::join2("configuration revision ", text::decimal_text(status.config_revision).as_str()).as_str(),
        ),
    ];
    assert(r@.len() == 3);
    r
}

/// Checks a file system, given how many bytes are free there or why that is not known.
pub fn filesystem_check(id: &str, path: &str, available: Result<u64, String>) -> (r: DoctorCheck)
    ensures
        match available {
            Ok(bytes) => check_view(r) == (
                id@,
                DoctorCheckStatus::Healthy,
                text::decimal(bytes as nat) + " bytes available"@,
            ),
            Err(error) => check_view(r) == (id@, DoctorCheckStatus::Critical, path@ + ": "@ + error@),
        },
{
    match available {
        Ok(bytes) => doctor_check(
            id,
            DoctorCheckStatus::Healthy,
            text::join2(text::decimal_text(bytes).as_str(), " bytes available").as_str(),
        ),
        Err(error) => doctor_check(
            id,
            DoctorCheckStatus::Critical,
            text::join3(path, ": ", error.as_str()).as_str(),
        ),
    }
}

/// What some checks come to.
pub open spec fn is_diagnosis(checks: Vec<DoctorCheck>, r: DoctorResponse) -> bool {
    &&& r.checks == checks
    &&& r.healthy == (forall|i: int|
        0 <= i < checks@.len() ==> (#[trigger] checks@[i]).status == DoctorCheckStatus::Healthy)
}

/// Puts the checks together: all is well while each check is.
pub fn diagnose(checks: Vec<DoctorCheck>) -> (r: DoctorResponse)
    ensures
        is_diagnosis(checks, r),
{
    let mut healthy: bool = true;
    let mut i: usize = 0;
    while i < checks.len()
        invariant
            i <= checks.len(),
            healthy == (forall|k: int|
                0 <= k < i ==> (#[trigger] checks@[k]).status == DoctorCheckStatus::Healthy),
        decreases checks.len() - i,
    {
        if checks[i].status != DoctorCheckStatus::Healthy {
            healthy = false;
        }
        i = i + 1;
    }
    DoctorResponse { healthy, checks }
}

/// A fence or a recovery that any node reports is critical.
pub proof fn law_fences_are_critical(nodes: Seq<NodeStatusView>)
    requires
        publication_records(nodes).0 > 0 || publication_records(nodes).1 > 0,
    ensures
        publication_checks(nodes)[1].1 == DoctorCheckStatus::Critical,
{
}

/// A diagnosis is healthy exactly where no check is worse than healthy, and it shows every check.
pub proof fn law_one_bad_check_is_enough(checks: Vec<DoctorCheck>, r: DoctorResponse)
    requires
        is_diagnosis(checks, r),
    ensures
        r.checks@ == checks@,
        r.healthy ==> forall|i: int| 0 <= i < checks@.len() ==> (#[trigger] checks@[i]).status == DoctorCheckStatus::Healthy,
        !r.healthy ==> exists|i: int| 0 <= i < checks@.len() && (#[trigger] checks@[i]).status != DoctorCheckStatus::Healthy,
{
}

/// Everything is shown as it was counted, every mirror and every node in its place: a node as online where it
/// was seen lately, as bound where it is bound, and with what it last reported of publishing.
pub proof fn law_everything_is_shown(
    version: Seq<char>,
    schema_version: u32,
    config_revision: u64,
    counts: OperationalCounts,
    mirrors: Seq<MirrorOperationalRecord>,
    nodes: Seq<NodeRecord>,
    observations: Seq<(String, PublicationObservation)>,
    now: i64,
    offline_after: Span,
    r: StatusResponse,
)
    requires
        shows_status(
            version,
            schema_version,
            config_revision,
            counts,
            mirrors,
            nodes,
            observations,
            now,
            offline_after,
            r,
        ),
    ensures
        r.runs_pending == counts.pending_runs && r.runs_running == counts.running_runs && r.mirrors_due == counts.due_mirrors
            && r.run_logs_stored_bytes == counts.stored_log_bytes,
        r.version@ == version && r.schema_version == schema_version && r.config_revision == config_revision,
        r.mirrors@.len() == mirrors.len(),
        forall|m: int|
            0 <= m < mirrors.len() ==> {
                &&& (#[trigger] r.mirrors@[m]).name == mirrors[m].name
                &&& r.mirrors@[m].node == mirrors[m].owner_node
                &&& r.mirrors@[m].enabled == mirrors[m].enabled
                &&& r.mirrors@[m].current_run_state == mirrors[m].current_run_state
                &&& r.mirrors@[m].current_run_created_at_ms == mirrors[m].current_run_created_at_ms
                &&& r.mirrors@[m].last_run_state == mirrors[m].last_run_state
                &&& r.mirrors@[m].last_terminal_at_ms == mirrors[m].last_terminal_at_ms
                &&& r.mirrors@[m].last_success_at_ms == mirrors[m].last_success_at_ms
                &&& r.mirrors@[m].next_due_at_ms == mirrors[m].next_due_at_ms
                &&& r.mirrors@[m].due_since_ms == mirrors[m].due_since_ms
            },
        r.nodes@.len() == nodes.len(),
        forall|n: int|
            0 <= n < nodes.len() ==> {
                let seen = nodes[n].last_seen_at_ms;
                &&& (#[trigger] r.nodes@[n]).name == nodes[n].name
                &&& seen is None ==> !r.nodes@[n].online
                &&& seen is Some && i64::MIN <= now - seen->0 <= i64::MAX && offline_after.millis() <= i64::MAX ==> (
                r.nodes@[n].online <==> now - seen->0 <= offline_after.millis())
                &&& r.nodes@[n].bound <==> nodes[n].bound_agent_id is Some
                &&& r.nodes@[n].last_seen_at_ms == seen
                &&& r.nodes@[n].active_runs == nodes[n].active_runs
                &&& r.nodes@[n].max_concurrent_runs == nodes[n].max_concurrent_runs
                &&& r.nodes@[n].mirror_root_free_bytes == nodes[n].mirror_root_free_bytes
                &&& observed(observations, nodes[n].name@) is None ==> r.nodes@[n].publication_health is None
                    && r.nodes@[n].atomic_publication_capable is None
                &&& observed(observations, nodes[n].name@) is Some ==> r.nodes@[n].publication_health == Some(
                    observed(observations, nodes[n].name@)->0.cumulative,
                ) && r.nodes@[n].atomic_publication_capable == Some(observed(observations, nodes[n].name@)->0.atomic_capable)
            },
{
}

/// Faults of nodes and mirrors are counted one by one.
pub proof fn law_faults_add_up(
    front: Seq<NodeStatusView>,
    rest: Seq<NodeStatusView>,
    mirrors: Seq<MirrorStatusView>,
    more: Seq<MirrorStatusView>,
    now: i64,
    offline_after: Span,
)
    ensures
        node_faults(front + rest).0 == node_faults(front).0 + node_faults(rest).0,
        node_faults(front + rest).1 == node_faults(front).1 + node_faults(rest).1,
        publication_counts(front + rest).0 == publication_counts(front).0 + publication_counts(rest).0,
        publication_counts(front + rest).1 == publication_counts(front).1 + publication_counts(rest).1,
        publication_counts(front + rest).2 == publication_counts(front).2 + publication_counts(rest).2,
        publication_records(front + rest).0 == publication_records(front).0 + publication_records(rest).0,
        publication_records(front + rest).1 == publication_records(front).1 + publication_records(rest).1,
        count_stale(mirrors + more, now, offline_after) == count_stale(mirrors, now, offline_after) + count_stale(
            more,
            now,
            offline_after,
        ),
    decreases rest.len() + more.len(),
{
    if rest.len() > 0 {
        law_faults_add_up(front, rest.drop_last(), mirrors, more, now, offline_after);
        assert((front + rest).drop_last() =~= front + rest.drop_last());
        assert((front + rest).last() == rest.last());
    } else if more.len() > 0 {
        law_faults_add_up(front, rest, mirrors, more.drop_last(), now, offline_after);
        assert((mirrors + more).drop_last() =~= mirrors + more.drop_last());
        assert((mirrors + more).last() == more.last());
    } else {
        assert(front + rest =~= front);
        assert(mirrors + more =~= mirrors);
    }
}

/// One node counts as offline and as unbound where it is, and of publishing, where it reports that, as incapable
/// and as degraded where it is and with its records; one mirror counts as stale where its run was made more
/// than twice as long ago as a node may be silent.
pub proof fn law_each_fault_counts_once(node: NodeStatusView, mirror: MirrorStatusView, now: i64, offline_after: Span)
    ensures
        node_faults(seq![node]).0 == (if node.online { 0nat } else { 1nat }),
        node_faults(seq![node]).1 == (if node.bound { 0nat } else { 1nat }),
        node.publication_health is None ==> publication_counts(seq![node]) == (0nat, 0nat, 0nat) && publication_records(
            seq![node],
        ) == (0nat, 0nat),
        node.publication_health is Some ==> {
            &&& publication_counts(seq![node]).0 == 1
            &&& publication_counts(seq![node]).1 == (if node.atomic_publication_capable == Some(true) { 0nat } else { 1nat })
            &&& publication_counts(seq![node]).2 == (if node.publication_health->0.degraded { 1nat } else { 0nat })
            &&& publication_records(seq![node]).0 == node.publication_health->0.fenced_records
            &&& publication_records(seq![node]).1 == node.publication_health->0.recovery_records
        },
        mirror.current_run_created_at_ms is None ==> count_stale(seq![mirror], now, offline_after) == 0,
        mirror.current_run_created_at_ms is Some && i64::MIN <= now - mirror.current_run_created_at_ms->0 <= i64::MAX
            && offline_after.millis() * 2 <= i64::MAX ==> count_stale(seq![mirror], now, offline_after) == (if now
            - mirror.current_run_created_at_ms->0 > offline_after.millis() * 2 { 1nat } else { 0nat }),
{
    reveal_with_fuel(node_faults, 2);
    reveal_with_fuel(publication_counts, 2);
    reveal_with_fuel(publication_records, 2);
    reveal_with_fuel(count_stale, 2);
    assert(seq![node].drop_last() =~= Seq::empty());
    assert(seq![mirror].drop_last() =~= Seq::empty());
    assert(seq![node].last() == node);
    assert(seq![mirror].last() == mirror);
}

/// What is counted is what is checked: a node that is offline, an agent that cannot publish at once, a fence or a
/// lost log is critical; a node that is unbound, a degraded agent, a mirror that is due, a run that is stale
/// and a missing backup are warned of; and where nothing is wrong everything is healthy.
pub proof fn law_checks_weigh_what_is_counted(
    status: StatusResponse,
    now: i64,
    offline_after: Span,
    missing_logs: u64,
    inline: bool,
)
    ensures
        ({
            let checks = operational_checks(status, now, offline_after, missing_logs, BackupState::Missing, inline);
            let faults = node_faults(status.nodes@);
            let (reporting, incapable, degraded) = publication_counts(status.nodes@);
            let (fenced, recovery) = publication_records(status.nodes@);
            let good = DoctorCheckStatus::Healthy;
            let warn = DoctorCheckStatus::Warning;
            let bad = DoctorCheckStatus::Critical;
            &&& checks.len() == 9
            &&& checks[0].1 == (if faults.0 > 0 { bad } else { good })
            &&& checks[1].1 == (if faults.1 > 0 { warn } else { good })
            &&& checks[2].1 == (if incapable > 0 { bad } else { good })
            &&& checks[3].1 == (if fenced + recovery > 0 { bad } else if degraded > 0 { warn } else { good })
            &&& checks[4].1 == (if status.mirrors_due > 0 { warn } else { good })
            &&& checks[5].1 == (if count_stale(status.mirrors@, now, offline_after) > 0 { warn } else { good })
            &&& checks[6].1 == (if missing_logs > 0 { bad } else { good })
            &&& checks[7].1 == warn
            &&& checks[8].1 == (if inline { warn } else { good })
        }),
{
}

} // verus!
