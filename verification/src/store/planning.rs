//! Plans: what a canonical bundle changes of the mirrors in the tables.
use super::tables;
use super::tables::GenerationRow;
use super::tables::MirrorRow;
use super::tables::RevisionRow;
use super::tables::Store;
use super::tables::StoreError;
use super::wellformed;
use crate::domain::bundle::in_order;
use crate::domain::config::CanonicalBundle;
use crate::domain::config::CanonicalMirror;
use crate::domain::config::PublicationMode;
use crate::domain::ids;
use crate::domain::ids::MirrorName;
use crate::outside;
use crate::text;
use vstd::prelude::*;

verus! {

/// What happens to a mirror.
#[derive(Clone, Copy, Debug, PartialEq, Eq, Structural)]
pub enum ChangeKind {
    Create,
    Update,
    Remove,
    Move,
}

/// How the publication of a mirror changes.
#[derive(Clone, Copy, Debug, PartialEq, Eq, Structural)]
pub enum PublicationChange {
    DirectToAtomic,
    AtomicToDirect,
}

/// What happens to one mirror.
#[derive(Debug, PartialEq, Eq)]
pub struct ConfigChange {
    pub kind: ChangeKind,
    pub mirror: String,
    pub from_generation: Option<u64>,
    pub to_generation: Option<u64>,
    pub from_node: Option<String>,
    pub to_node: Option<String>,
    pub publication_change: Option<PublicationChange>,
}

/// What a bundle changes, against which revision.
#[derive(Debug, PartialEq, Eq)]
pub struct ConfigPlan {
    pub base_revision: u64,
    pub bundle_hash: String,
    pub changes: Vec<ConfigChange>,
}

/// What a change holds besides its mirror.
pub struct Planned {
    pub kind: ChangeKind,
    pub from_generation: Option<u64>,
    pub to_generation: Option<u64>,
    pub from_node: Option<Seq<char>>,
    pub to_node: Option<Seq<char>>,
    pub publication_change: Option<PublicationChange>,
}

impl ConfigChange {
    /// What the change holds besides its mirror.
    pub open spec fn planned(self) -> Planned {
        Planned {
            kind: self.kind,
            from_generation: self.from_generation,
            to_generation: self.to_generation,
            from_node: text::opt_view(self.from_node),
            to_node: text::opt_view(self.to_node),
            publication_change: self.publication_change,
        }
    }
}

/// The latest revision; nothing applied yet is revision zero.
pub open spec fn latest_revision(rows: Seq<RevisionRow>) -> u64
    decreases rows.len(),
{
    if rows.len() == 0 {
        0
    } else {
        let rest = latest_revision(rows.drop_last());
        if rows.last().revision > rest {
            rows.last().revision
        } else {
            rest
        }
    }
}

/// The place of a mirror in a bundle.
pub open spec fn bundle_index(mirrors: Seq<CanonicalMirror>, name: Seq<char>) -> Option<int>
    decreases mirrors.len(),
{
    if mirrors.len() == 0 {
        None
    } else if mirrors.last().name() == name {
        Some(mirrors.len() - 1)
    } else {
        bundle_index(mirrors.drop_last(), name)
    }
}

/// What a mirror's place in a bundle means.
pub proof fn lemma_bundle_index(mirrors: Seq<CanonicalMirror>, name: Seq<char>)
    ensures
        match bundle_index(mirrors, name) {
            Some(i) => 0 <= i < mirrors.len() && mirrors[i].name() == name,
            None => forall|i: int| 0 <= i < mirrors.len() ==> (#[trigger] mirrors[i]).name() != name,
        },
    decreases mirrors.len(),
{
    if mirrors.len() > 0 && mirrors.last().name() != name {
        lemma_bundle_index(mirrors.drop_last(), name);
        assert forall|i: int| 0 <= i < mirrors.len() && bundle_index(mirrors, name) is None implies (
        #[trigger] mirrors[i]).name() != name by {
            if i < mirrors.len() - 1 {
                assert(mirrors.drop_last()[i] == mirrors[i]);
            }
        }
    }
}

/// Finds a mirror in a bundle.
pub fn find_in_bundle(mirrors: &Vec<CanonicalMirror>, name: &str) -> (r: Option<usize>)
    ensures
        match r {
            Some(i) => bundle_index(mirrors@, name@) == Some(i as int) && i < mirrors.len()
                && mirrors@[i as int].name() == name@,
            None => bundle_index(mirrors@, name@) is None,
        },
{
    let mut n: usize = mirrors.len();
    assert(mirrors@.take(n as int) == mirrors@);
    while n > 0
        invariant
            n <= mirrors.len(),
            bundle_index(mirrors@, name@) == bundle_index(mirrors@.take(n as int), name@),
        decreases n,
    {
        assert(mirrors@.take(n as int).drop_last() == mirrors@.take(n - 1));
        if text::same(mirrors[n - 1].document.mirror.name.as_str(), name) {
            return Some(n - 1);
        }
        n = n - 1;
    }
    None
}

/// How the publication changes from one mode to another.
pub open spec fn publication_change(from: PublicationMode, to: PublicationMode) -> Option<PublicationChange> {
    match (from, to) {
        (PublicationMode::Direct, PublicationMode::Atomic) => Some(PublicationChange::DirectToAtomic),
        (PublicationMode::Atomic, PublicationMode::Direct) => Some(PublicationChange::AtomicToDirect),
        _ => None,
    }
}

/// The current generation of a mirror.
pub open spec fn current_generation(s: Store, mirror: MirrorRow) -> GenerationRow {
    s.generations@[tables::generation_index(s.generations@, mirror.name@, mirror.current_generation)->0]
}

/// What a bundle changes of the mirror of a name: one that it does not have leaves, unless it is gone
/// already; one that is gone, or whose configuration or owner differ, comes to its next generation;
/// one that is new is created.
pub open spec fn planned_change(s: Store, bundle: Seq<CanonicalMirror>, name: Seq<char>) -> Option<Planned> {
    match tables::mirror_index(s.mirrors@, name) {
        Some(i) => {
            let mirror = s.mirrors@[i];
            let generation = current_generation(s, mirror);
            match bundle_index(bundle, name) {
                None => if mirror.managed {
                    Some(
                        Planned {
                            kind: ChangeKind::Remove,
                            from_generation: Some(mirror.current_generation),
                            to_generation: None,
                            from_node: Some(mirror.owner_node@),
                            to_node: None,
                            publication_change: None,
                        },
                    )
                } else {
                    None
                },
                Some(b) => {
                    let next = bundle[b];
                    let moved = next.owner_node@ != mirror.owner_node@;
                    if !mirror.managed || next.config_hash@ != generation.config_hash@ || moved {
                        Some(
                            Planned {
                                kind: if mirror.managed && moved { ChangeKind::Move } else { ChangeKind::Update },
                                from_generation: Some(mirror.current_generation),
                                to_generation: Some((mirror.current_generation + 1) as u64),
                                from_node: Some(mirror.owner_node@),
                                to_node: Some(next.owner_node@),
                                publication_change: publication_change(generation.publication, next.document.mode()),
                            },
                        )
                    } else {
                        None
                    }
                },
            }
        },
        None => match bundle_index(bundle, name) {
            None => None,
            Some(b) => Some(
                Planned {
                    kind: ChangeKind::Create,
                    from_generation: None,
                    to_generation: Some(1),
                    from_node: None,
                    to_node: Some(bundle[b].owner_node@),
                    publication_change: None,
                },
            ),
        },
    }
}

/// True of the first mirror whose name is none.
pub open spec fn first_bad_name(rows: Seq<MirrorRow>, i: int) -> bool {
    &&& 0 <= i < rows.len()
    &&& !ids::is_name(rows[i].name@)
    &&& forall|k: int| 0 <= k < i ==> ids::is_name((#[trigger] rows[k]).name@)
}

/// True of the error that names the first mirror whose name is none.
pub open spec fn names_bad_mirror(rows: Seq<MirrorRow>, error: StoreError) -> bool {
    exists|i: int|
        first_bad_name(rows, i) && error == StoreError::InvalidConfig(error->InvalidConfig_0)
            && error->InvalidConfig_0@ == "invalid "@ + "mirror name"@ + ": "@ + outside::debug_quoted(
            (#[trigger] rows[i]).name@,
        )
}

/// True when the changes stand in the order of their mirrors, each mirror once.
pub open spec fn changes_in_order(changes: Seq<ConfigChange>) -> bool {
    forall|i: int, j: int|
        0 <= i < j < changes.len() ==> text::lex_less(
            (#[trigger] changes[i]).mirror@,
            (#[trigger] changes[j]).mirror@,
        )
}

/// True when one of the changes is that of the mirror.
pub open spec fn changes_mirror(changes: Seq<ConfigChange>, name: Seq<char>) -> bool {
    exists|i: int| 0 <= i < changes.len() && (#[trigger] changes[i]).mirror@ == name
}

/// True when each change is what the bundle changes of its mirror.
pub open spec fn changes_planned(s: Store, bundle: Seq<CanonicalMirror>, changes: Seq<ConfigChange>) -> bool {
    forall|i: int|
        0 <= i < changes.len() ==> planned_change(s, bundle, (#[trigger] changes[i]).mirror@) == Some(
            changes[i].planned(),
        )
}

/// The changes of a plan: exactly what the bundle changes, in the order of the mirrors.
pub open spec fn is_plan(s: Store, bundle: Seq<CanonicalMirror>, changes: Seq<ConfigChange>) -> bool {
    &&& changes_in_order(changes)
    &&& changes_planned(s, bundle, changes)
    &&& forall|name: Seq<char>|
        planned_change(s, bundle, name) is Some ==> #[trigger] changes_mirror(changes, name)
}

fn insert_change(changes: &mut Vec<ConfigChange>, change: ConfigChange)
    requires
        changes_in_order(old(changes)@),
        !changes_mirror(old(changes)@, change.mirror@),
    ensures
        changes_in_order(final(changes)@),
        exists|at: int|
            0 <= at <= old(changes)@.len() && final(changes)@ == #[trigger] old(changes)@.insert(at, change),
{
    let ghost start = changes@;
    let name: String = change.mirror.clone();
    let mut at: usize = 0;
    while at < changes.len() && text::less(changes[at].mirror.as_str(), name.as_str())
        invariant
            at <= changes.len(),
            changes@ == start,
            name@ == change.mirror@,
            forall|k: int| 0 <= k < at ==> text::lex_less((#[trigger] start[k]).mirror@, name@),
        decreases changes.len() - at,
    {
        at = at + 1;
    }
    proof {
        assert forall|k: int| at <= k < start.len() implies text::lex_less(name@, (#[trigger] start[k]).mirror@) by {
            text::lemma_lex_less_total(start[at as int].mirror@, name@);
            assert(start[at as int].mirror@ != name@);
            if k > at {
                assert(text::lex_less(start[at as int].mirror@, start[k].mirror@));
                text::lemma_lex_less_transitive(name@, start[at as int].mirror@, start[k].mirror@);
            }
        }
        let after = start.insert(at as int, change);
        assert forall|i: int, j: int| 0 <= i < j < after.len() implies text::lex_less(
            (#[trigger] after[i]).mirror@,
            (#[trigger] after[j]).mirror@,
        ) by {
            let x = if i < at { i } else { i - 1 };
            let y = if j < at { j } else { j - 1 };
            if i != at {
                assert(after[i] == start[x]);
            }
            if j != at {
                assert(after[j] == start[y]);
            }
            if i != at && j != at {
                assert(text::lex_less(start[x].mirror@, start[y].mirror@));
            }
        }
    }
    changes.insert(at, change);
}

fn change_of_publication(from: PublicationMode, to: PublicationMode) -> (r: Option<PublicationChange>)
    ensures
        r == publication_change(from, to),
{
    match (from, to) {
        (PublicationMode::Direct, PublicationMode::Atomic) => Some(PublicationChange::DirectToAtomic),
        (PublicationMode::Atomic, PublicationMode::Direct) => Some(PublicationChange::AtomicToDirect),
        _ => None,
    }
}

impl Store {
    /// The latest revision.
    pub fn current_revision(&self) -> (r: u64)
        ensures
            r == latest_revision(self.revisions@),
    {
        let mut latest: u64 = 0;
        let mut i: usize = 0;
        while i < self.revisions.len()
            invariant
                i <= self.revisions.len(),
                latest == latest_revision(self.revisions@.take(i as int)),
            decreases self.revisions.len() - i,
        {
            assert(self.revisions@.take(i + 1).drop_last() == self.revisions@.take(i as int));
            if self.revisions[i].revision > latest {
                latest = self.revisions[i].revision;
            }
            i = i + 1;
        }
        assert(self.revisions@.take(self.revisions@.len() as int) == self.revisions@);
        latest
    }

    fn plan_stored(&self, i: usize, bundle: &CanonicalBundle) -> (r: Option<ConfigChange>)
        requires
            self.wf(),
            i < self.mirrors@.len(),
        ensures
            match r {
                Some(change) => change.mirror@ == self.mirrors@[i as int].name@ && planned_change(
                    *self,
                    bundle.mirrors@,
                    self.mirrors@[i as int].name@,
                ) == Some(change.planned()),
                None => planned_change(*self, bundle.mirrors@, self.mirrors@[i as int].name@) is None,
            },
    {
        let mirror: &MirrorRow = &self.mirrors[i];
        proof {
            tables::lemma_mirror_index(self.mirrors@, mirror.name@);
            assert(tables::mirror_index(self.mirrors@, mirror.name@) == Some(i as int));
            assert(wellformed::has_generation(self.generations@, mirror.name@, mirror.current_generation));
            tables::lemma_generation_index(self.generations@, mirror.name@, mirror.current_generation);
        }
        let g: usize = tables::find_generation(
            &self.generations,
            mirror.name.as_str(),
            mirror.current_generation,
        ).unwrap();
        match find_in_bundle(&bundle.mirrors, mirror.name.as_str()) {
            None => {
                if mirror.managed {
                    Some(
                        ConfigChange {
                            kind: ChangeKind::Remove,
                            mirror: mirror.name.clone(),
                            from_generation: Some(mirror.current_generation),
                            to_generation: None,
                            from_node: Some(mirror.owner_node.clone()),
                            to_node: None,
                            publication_change: None,
                        },
                    )
                } else {
                    None
                }
            },
            Some(b) => {
                let next: &CanonicalMirror = &bundle.mirrors[b];
                let moved: bool = !text::same(next.owner_node.as_str(), mirror.owner_node.as_str());
                if !mirror.managed || !text::same(
                    next.config_hash.as_str(),
                    self.generations[g].config_hash.as_str(),
                ) || moved {
                    Some(
                        ConfigChange {
                            kind: if mirror.managed && moved {
                                ChangeKind::Move
                            } else {
                                ChangeKind::Update
                            },
                            mirror: mirror.name.clone(),
                            from_generation: Some(mirror.current_generation),
                            to_generation: Some(mirror.current_generation + 1),
                            from_node: Some(mirror.owner_node.clone()),
                            to_node: Some(next.owner_node.as_str().to_owned()),
                            publication_change: change_of_publication(
                                self.generations[g].publication,
                                next.document.publication_mode(),
                            ),
                        },
                    )
                } else {
                    None
                }
            },
        }
    }

    /// Plans what a bundle changes. A stored mirror whose name is none is an error.
    pub fn plan(&self, bundle: &CanonicalBundle) -> (r: Result<ConfigPlan, StoreError>)
        requires
            self.wf(),
            in_order(bundle.mirrors@),
        ensures
            match r {
                Ok(plan) => {
                    &&& forall|i: int| 0 <= i < self.mirrors@.len() ==> ids::is_name((#[trigger] self.mirrors@[i]).name@)
                    &&& plan.base_revision == latest_revision(self.revisions@)
                    &&& plan.bundle_hash == bundle.bundle_hash
                    &&& is_plan(*self, bundle.mirrors@, plan.changes@)
                },
                Err(error) => names_bad_mirror(self.mirrors@, error),
            },
    {
        let mut changes: Vec<ConfigChange> = Vec::new();
        let mut i: usize = 0;
        while i < self.mirrors.len()
            invariant
                self.wf(),
                i <= self.mirrors.len(),
                forall|k: int| 0 <= k < i ==> ids::is_name((#[trigger] self.mirrors@[k]).name@),
                changes_in_order(changes@),
                changes_planned(*self, bundle.mirrors@, changes@),
                forall|c: int|
                    0 <= c < changes@.len() ==> exists|k: int|
                        0 <= k < i && (#[trigger] self.mirrors@[k]).name@ == (#[trigger] changes@[c]).mirror@,
                forall|k: int|
                    0 <= k < i && planned_change(
                        *self,
                        bundle.mirrors@,
                        (#[trigger] self.mirrors@[k]).name@,
                    ) is Some ==> changes_mirror(changes@, self.mirrors@[k].name@),
            decreases self.mirrors.len() - i,
        {
            if let Err(error) = MirrorName::new(self.mirrors[i].name.as_str()) {
                return Err(StoreError::InvalidConfig(error.message()));
            }
            let planned: Option<ConfigChange> = self.plan_stored(i, bundle);
            if let Some(change) = planned {
                let ghost before = changes@;
                proof {
                    if changes_mirror(changes@, change.mirror@) {
                        let c = choose|c: int|
                            0 <= c < changes@.len() && (#[trigger] changes@[c]).mirror@ == change.mirror@;
                        let k = choose|k: int|
                            0 <= k < i && (#[trigger] self.mirrors@[k]).name@ == changes@[c].mirror@;
                        assert(self.mirrors@[k].name@ != self.mirrors@[i as int].name@);
                    }
                }
                insert_change(&mut changes, change);
                proof {
                    lemma_inserted(before, changes@, change);
                    assert(self.mirrors@[i as int].name@ == change.mirror@);
                }
            }
            i = i + 1;
        }
        let mut j: usize = 0;
        while j < bundle.mirrors.len()
            invariant
                self.wf(),
                in_order(bundle.mirrors@),
                j <= bundle.mirrors.len(),
                changes_in_order(changes@),
                changes_planned(*self, bundle.mirrors@, changes@),
                forall|c: int|
                    0 <= c < changes@.len() ==> (exists|k: int|
                        0 <= k < self.mirrors@.len() && (#[trigger] self.mirrors@[k]).name@
                            == (#[trigger] changes@[c]).mirror@) || (exists|k: int|
                        0 <= k < j && (#[trigger] bundle.mirrors@[k]).name() == changes@[c].mirror@),
                forall|k: int|
                    0 <= k < self.mirrors@.len() && planned_change(
                        *self,
                        bundle.mirrors@,
                        (#[trigger] self.mirrors@[k]).name@,
                    ) is Some ==> changes_mirror(changes@, self.mirrors@[k].name@),
                forall|k: int|
                    0 <= k < j && tables::mirror_index(
                        self.mirrors@,
                        (#[trigger] bundle.mirrors@[k]).name(),
                    ) is None ==> changes_mirror(changes@, bundle.mirrors@[k].name()),
            decreases bundle.mirrors.len() - j,
        {
            let next: &CanonicalMirror = &bundle.mirrors[j];
            proof {
                tables::lemma_mirror_index(self.mirrors@, next.name());
                lemma_bundle_index(bundle.mirrors@, next.name());
                let b = bundle_index(bundle.mirrors@, next.name())->0;
                text::lemma_lex_less_total(next.name(), next.name());
                assert(b == j);
            }
            if tables::find_mirror(&self.mirrors, next.document.mirror.name.as_str()).is_none() {
                let change: ConfigChange = ConfigChange {
                    kind: ChangeKind::Create,
                    mirror: next.document.mirror.name.as_str().to_owned(),
                    from_generation: None,
                    to_generation: Some(1),
                    from_node: None,
                    to_node: Some(next.owner_node.as_str().to_owned()),
                    publication_change: None,
                };
                let ghost before = changes@;
                proof {
                    if changes_mirror(changes@, change.mirror@) {
                        let c = choose|c: int|
                            0 <= c < changes@.len() && (#[trigger] changes@[c]).mirror@ == change.mirror@;
                        if exists|k: int|
                            0 <= k < j && (#[trigger] bundle.mirrors@[k]).name() == changes@[c].mirror@ {
                            let k = choose|k: int|
                                0 <= k < j && (#[trigger] bundle.mirrors@[k]).name() == changes@[c].mirror@;
                            text::lemma_lex_less_total(bundle.mirrors@[k].name(), next.name());
                            assert(text::lex_less(bundle.mirrors@[k].name(), bundle.mirrors@[j as int].name()));
                        }
                    }
                    assert(planned_change(*self, bundle.mirrors@, change.mirror@) == Some(change.planned()));
                }
                insert_change(&mut changes, change);
                proof {
                    lemma_inserted(before, changes@, change);
                    assert(bundle.mirrors@[j as int].name() == change.mirror@);
                }
            }
            j = j + 1;
        }
        proof {
            assert forall|name: Seq<char>| planned_change(
                *self,
                bundle.mirrors@,
                name,
            ) is Some implies #[trigger] changes_mirror(changes@, name) by {
                tables::lemma_mirror_index(self.mirrors@, name);
                lemma_bundle_index(bundle.mirrors@, name);
                match tables::mirror_index(self.mirrors@, name) {
                    Some(k) => {
                        assert(self.mirrors@[k].name@ == name);
                    },
                    None => {
                        let b = bundle_index(bundle.mirrors@, name)->0;
                        assert(bundle.mirrors@[b].name() == name);
                    },
                }
            }
        }
        Ok(
            ConfigPlan {
                base_revision: self.current_revision(),
                bundle_hash: bundle.bundle_hash.clone(),
                changes,
            },
        )
    }
}

/// What putting a change among others keeps and adds.
proof fn lemma_inserted(before: Seq<ConfigChange>, after: Seq<ConfigChange>, change: ConfigChange)
    requires
        exists|at: int| 0 <= at <= before.len() && after == #[trigger] before.insert(at, change),
    ensures
        changes_mirror(after, change.mirror@),
        forall|name: Seq<char>| #[trigger] changes_mirror(before, name) ==> changes_mirror(after, name),
        forall|c: int|
            0 <= c < after.len() ==> (#[trigger] after[c]) == change || exists|k: int|
                0 <= k < before.len() && (#[trigger] before[k]) == after[c],
{
    let at = choose|at: int| 0 <= at <= before.len() && after == #[trigger] before.insert(at, change);
    assert(after[at] == change);
    assert forall|name: Seq<char>| #[trigger] changes_mirror(before, name) implies changes_mirror(after, name) by {
        let k = choose|k: int| 0 <= k < before.len() && (#[trigger] before[k]).mirror@ == name;
        let x = if k < at { k } else { k + 1 };
        assert(after[x] == before[k]);
    }
    assert forall|c: int| 0 <= c < after.len() implies (#[trigger] after[c]) == change || exists|k: int|
        0 <= k < before.len() && (#[trigger] before[k]) == after[c] by {
        if c != at {
            let k = if c < at { c } else { c - 1 };
            assert(before[k] == after[c]);
        }
    }
}

/// A mirror that a bundle still has is changed exactly where it had left, its configuration or its node
/// differs: it moves where it had not left and comes to another node, else it is updated; either way it
/// comes to its next generation, and a change of the way it is published is named.
pub proof fn law_plans_list_what_differs(
    s: Store,
    bundle: Seq<CanonicalMirror>,
    changes: Seq<ConfigChange>,
    m: int,
    b: int,
    g: int,
)
    requires
        s.wf(),
        in_order(bundle),
        is_plan(s, bundle, changes),
        0 <= m < s.mirrors@.len(),
        0 <= b < bundle.len(),
        bundle[b].name() == s.mirrors@[m].name@,
        0 <= g < s.generations@.len(),
        s.generations@[g].mirror_name@ == s.mirrors@[m].name@,
        s.generations@[g].generation == s.mirrors@[m].current_generation,
    ensures
        ({
            let row = s.mirrors@[m];
            let next = bundle[b];
            let differs = !row.managed || next.config_hash@ != s.generations@[g].config_hash@ || next.owner_node@
                != row.owner_node@;
            &&& differs <==> exists|c: int| 0 <= c < changes.len() && (#[trigger] changes[c]).mirror@ == row.name@
            &&& forall|c: int|
                0 <= c < changes.len() && (#[trigger] changes[c]).mirror@ == row.name@ ==> {
                    &&& changes[c].kind == (if row.managed && next.owner_node@ != row.owner_node@ {
                        ChangeKind::Move
                    } else {
                        ChangeKind::Update
                    })
                    &&& changes[c].from_generation == Some(row.current_generation)
                    &&& changes[c].to_generation is Some && changes[c].to_generation->0 == row.current_generation + 1
                    &&& changes[c].from_node is Some && changes[c].from_node->0@ == row.owner_node@
                    &&& changes[c].to_node is Some && changes[c].to_node->0@ == next.owner_node@
                    &&& changes[c].publication_change is Some <==> s.generations@[g].publication
                        != next.document.mode()
                    &&& changes[c].publication_change == Some(PublicationChange::DirectToAtomic) <==> s.generations@[g].publication
                        == PublicationMode::Direct && next.document.mode() == PublicationMode::Atomic
                }
        }),
{
    let row = s.mirrors@[m];
    super::lookup::lemma_own_mirror(s.mirrors@, m);
    super::lookup::lemma_own_generation(s.generations@, g);
    lemma_own_place(bundle, b);
    assert(s.mirrors@[m].current_generation <= wellformed::MAX_NUMBER);
    let planned = planned_change(s, bundle, row.name@);
    if planned is Some {
        assert(changes_mirror(changes, row.name@));
    }
    assert forall|c: int| 0 <= c < changes.len() && (#[trigger] changes[c]).mirror@ == row.name@ implies planned == Some(
        changes[c].planned(),
    ) by {
        assert(planned_change(s, bundle, changes[c].mirror@) == Some(changes[c].planned()));
    }
}

/// A mirror of an ordered bundle is found by its own name.
pub proof fn lemma_own_place(bundle: Seq<CanonicalMirror>, b: int)
    requires
        in_order(bundle),
        0 <= b < bundle.len(),
    ensures
        bundle_index(bundle, bundle[b].name()) == Some(b),
{
    lemma_bundle_index(bundle, bundle[b].name());
    let k = bundle_index(bundle, bundle[b].name())->0;
    text::lemma_lex_less_total(bundle[b].name(), bundle[b].name());
    if k < b {
        assert(text::lex_less(bundle[k].name(), bundle[b].name()));
    } else if b < k {
        assert(text::lex_less(bundle[b].name(), bundle[k].name()));
    }
}

/// A mirror that a bundle no longer has leaves, unless it had left before.
pub proof fn law_plans_remove_what_is_gone(
    s: Store,
    bundle: Seq<CanonicalMirror>,
    changes: Seq<ConfigChange>,
    m: int,
)
    requires
        s.wf(),
        is_plan(s, bundle, changes),
        0 <= m < s.mirrors@.len(),
        forall|b: int| 0 <= b < bundle.len() ==> (#[trigger] bundle[b]).name() != s.mirrors@[m].name@,
    ensures
        s.mirrors@[m].managed <==> exists|c: int|
            0 <= c < changes.len() && (#[trigger] changes[c]).mirror@ == s.mirrors@[m].name@,
        forall|c: int|
            0 <= c < changes.len() && (#[trigger] changes[c]).mirror@ == s.mirrors@[m].name@ ==> {
                &&& changes[c].kind == ChangeKind::Remove
                &&& changes[c].from_generation == Some(s.mirrors@[m].current_generation)
                &&& changes[c].to_generation is None
                &&& changes[c].from_node is Some && changes[c].from_node->0@ == s.mirrors@[m].owner_node@
                &&& changes[c].to_node is None
            },
{
    let row = s.mirrors@[m];
    super::lookup::lemma_own_mirror(s.mirrors@, m);
    lemma_bundle_index(bundle, row.name@);
    let planned = planned_change(s, bundle, row.name@);
    if planned is Some {
        assert(changes_mirror(changes, row.name@));
    }
    assert forall|c: int| 0 <= c < changes.len() && (#[trigger] changes[c]).mirror@ == row.name@ implies planned == Some(
        changes[c].planned(),
    ) by {
        assert(planned_change(s, bundle, changes[c].mirror@) == Some(changes[c].planned()));
    }
}

/// A mirror that only the bundle has is created in its first generation, on its node.
pub proof fn law_plans_create_what_is_new(
    s: Store,
    bundle: Seq<CanonicalMirror>,
    changes: Seq<ConfigChange>,
    b: int,
)
    requires
        in_order(bundle),
        is_plan(s, bundle, changes),
        0 <= b < bundle.len(),
        forall|m: int| 0 <= m < s.mirrors@.len() ==> (#[trigger] s.mirrors@[m]).name@ != bundle[b].name(),
    ensures
        exists|c: int|
            0 <= c < changes.len() && (#[trigger] changes[c]).mirror@ == bundle[b].name() && changes[c].kind
                == ChangeKind::Create && changes[c].from_generation is None && changes[c].to_generation == Some(1u64)
                && changes[c].from_node is None && changes[c].to_node is Some && changes[c].to_node->0@
                == bundle[b].owner_node@,
{
    tables::lemma_mirror_index(s.mirrors@, bundle[b].name());
    lemma_own_place(bundle, b);
    let name = bundle[b].name();
    assert(planned_change(s, bundle, name) is Some);
    assert(changes_mirror(changes, name));
    let c = choose|c: int| 0 <= c < changes.len() && (#[trigger] changes[c]).mirror@ == name;
    assert(planned_change(s, bundle, changes[c].mirror@) == Some(changes[c].planned()));
}

/// A plan names no mirror that neither the tables nor the bundle have, and lists its changes by name,
/// each once.
pub proof fn law_plans_are_in_order(s: Store, bundle: Seq<CanonicalMirror>, changes: Seq<ConfigChange>, c: int, d: int)
    requires
        is_plan(s, bundle, changes),
        0 <= c < d < changes.len(),
    ensures
        text::lex_less(changes[c].mirror@, changes[d].mirror@),
        (exists|m: int| 0 <= m < s.mirrors@.len() && (#[trigger] s.mirrors@[m]).name@ == changes[c].mirror@) || (exists|
            b: int,
        |
            0 <= b < bundle.len() && (#[trigger] bundle[b]).name() == changes[c].mirror@),
{
    assert(planned_change(s, bundle, changes[c].mirror@) == Some(changes[c].planned()));
    tables::lemma_mirror_index(s.mirrors@, changes[c].mirror@);
    lemma_bundle_index(bundle, changes[c].mirror@);
    if let Some(m) = tables::mirror_index(s.mirrors@, changes[c].mirror@) {
        assert(s.mirrors@[m].name@ == changes[c].mirror@);
    } else {
        let b = bundle_index(bundle, changes[c].mirror@)->0;
        assert(bundle[b].name() == changes[c].mirror@);
    }
}

/// The latest revision is none before the first one, is one of the revisions, and none is later.
pub proof fn law_latest_revision_is_the_latest(rows: Seq<RevisionRow>, i: int)
    requires
        0 <= i < rows.len(),
    ensures
        latest_revision(rows) >= rows[i].revision,
        latest_revision(rows) > 0 ==> exists|k: int|
            0 <= k < rows.len() && (#[trigger] rows[k]).revision == latest_revision(rows),
    decreases rows.len(),
{
    reveal_with_fuel(latest_revision, 2);
    let shorter = rows.drop_last();
    if i < shorter.len() {
        assert(shorter[i] == rows[i]);
        law_latest_revision_is_the_latest(shorter, i);
    }
    if latest_revision(rows) > 0 {
        if latest_revision(rows) == rows.last().revision {
            assert(rows[rows.len() - 1].revision == latest_revision(rows));
        } else {
            assert(shorter.len() > 0);
            law_latest_revision_is_the_latest(shorter, 0);
            let k = choose|k: int| 0 <= k < shorter.len() && (#[trigger] shorter[k]).revision == latest_revision(shorter);
            assert(rows[k] == shorter[k]);
        }
    }
}

} // verus!
