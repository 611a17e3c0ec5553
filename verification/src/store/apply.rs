//! Applying a bundle: the next revision, and what it makes of every mirror.
use super::dispatch::run_row;
use super::lookup;
use super::lookup::generation_row;
use super::lookup::mirror_row;
use super::lookup::schedule_row;
use super::planning;
use super::planning::bundle_index;
use super::planning::planned_change;
use super::planning::ChangeKind;
use super::planning::ConfigChange;
use super::planning::ConfigPlan;
use super::retire;
use super::tables;
use super::tables::GenerationRow;
use super::tables::MirrorRow;
use super::tables::RevisionRow;
use super::tables::RunRow;
use super::tables::ScheduleRow;
use super::tables::Store;
use super::tables::StoreError;
use super::wellformed;
use super::wellformed::MAX_NUMBER;
use crate::domain::bundle::in_order;
use crate::domain::config::CanonicalBundle;
use crate::domain::config::CanonicalMirror;
use crate::domain::schedule;
use crate::domain::schedule::ScheduleConfig;
use crate::domain::schedule::ScheduleRuntime;
use crate::domain::state::AttemptState;
use crate::domain::state::RunState;
use crate::text;
use vstd::prelude::*;
use vstd::utf8::encode_utf8;

verus! {

/// What a change makes of a mirror's schedule.
#[derive(Debug, PartialEq, Eq)]
pub enum ScheduleEffect {
    /// The schedule goes.
    Delete,
    /// The schedule stays as it is.
    Keep,
    /// The schedule is put in force anew.
    Put { hash: String, runtime: ScheduleRuntime },
}

/// What an effect holds.
pub enum EffectView {
    Delete,
    Keep,
    Put { hash: Seq<char>, runtime: ScheduleRuntime },
}

impl ScheduleEffect {
    /// What the effect holds.
    pub open spec fn view(&self) -> EffectView {
        match *self {
            ScheduleEffect::Delete => EffectView::Delete,
            ScheduleEffect::Keep => EffectView::Keep,
            ScheduleEffect::Put { hash, runtime } => EffectView::Put { hash: hash@, runtime },
        }
    }
}

/// True when a schedule is put in force anew: the mirror is new or moves, was not managed, not
/// enabled or not owned by its node before, or its schedule means something else.
pub open spec fn schedule_resets(s: Store, next: CanonicalMirror, kind: ChangeKind, config: ScheduleConfig) -> bool {
    let name = next.name();
    let previous = mirror_row(s.mirrors@, name);
    let existing = schedule_row(s.schedules@, name);
    ||| kind is Create
    ||| kind is Move
    ||| previous is None
    ||| !previous->0.managed
    ||| !previous->0.enabled
    ||| previous->0.owner_node@ != next.owner_node@
    ||| existing is None
    ||| text::opt_view(existing->0.schedule_hash) != Some(schedule::fingerprint(encode_utf8(config.document())))
}

/// What a change makes of the schedule of a mirror that the bundle has, or why its schedule cannot be
/// put in force.
pub open spec fn schedule_effect(s: Store, next: CanonicalMirror, kind: ChangeKind, now: i64) -> Result<
    EffectView,
    Seq<char>,
> {
    match next.document.schedule {
        None => Ok(EffectView::Delete),
        Some(config) => if !next.document.mirror.enabled {
            Ok(EffectView::Delete)
        } else if schedule_resets(s, next, kind, config) {
            match schedule::activated(config, now) {
                Err(message) => Err(message),
                Ok(runtime) => Ok(
                    EffectView::Put { hash: schedule::fingerprint(encode_utf8(config.document())), runtime },
                ),
            }
        } else {
            Ok(EffectView::Keep)
        },
    }
}

/// What a change makes of the runs of its mirror: nothing, or the retirement of those that wait for a
/// retry and, where the flag says so, of pending ones.
pub open spec fn retirement(bundle: Seq<CanonicalMirror>, name: Seq<char>, kind: ChangeKind) -> Option<bool> {
    if kind is Remove {
        Some(true)
    } else if !bundle[bundle_index(bundle, name)->0].document.mirror.enabled {
        Some(true)
    } else if kind is Move {
        Some(false)
    } else {
        None
    }
}

/// The mirror of a name after the bundle is applied.
pub open spec fn mirror_applied(
    before: Store,
    after: Store,
    bundle: Seq<CanonicalMirror>,
    name: Seq<char>,
    now: i64,
) -> bool {
    let was = mirror_row(before.mirrors@, name);
    let is = mirror_row(after.mirrors@, name);
    match planned_change(before, bundle, name) {
        None => is == was,
        Some(planned) => if planned.kind is Remove {
            is == Some(MirrorRow { managed: false, removed_at_ms: Some(now), ..was->0 })
        } else {
            let next = bundle[bundle_index(bundle, name)->0];
            &&& is is Some
            &&& is->0.name@ == name
            &&& is->0.managed
            &&& is->0.enabled == next.document.mirror.enabled
            &&& is->0.owner_node@ == next.owner_node@
            &&& is->0.current_generation == planned.to_generation->0
            &&& is->0.removed_at_ms is None
        },
    }
}

/// The generations of a name after the bundle is applied: those before, and the new one.
pub open spec fn generation_applied(
    before: Store,
    after: Store,
    bundle: Seq<CanonicalMirror>,
    name: Seq<char>,
    generation: u64,
    revision: u64,
    now: i64,
) -> bool {
    let was = generation_row(before.generations@, name, generation);
    let is = generation_row(after.generations@, name, generation);
    match planned_change(before, bundle, name) {
        None => is == was,
        Some(planned) => if planned.to_generation == Some(generation) {
            let next = bundle[bundle_index(bundle, name)->0];
            &&& is is Some
            &&& is->0.mirror_name@ == name
            &&& is->0.generation == generation
            &&& is->0.config_revision == revision
            &&& is->0.owner_node@ == next.owner_node@
            &&& is->0.config_hash == next.config_hash
            &&& is->0.config_toml == next.canonical_toml
            &&& is->0.publication == next.document.mode()
            &&& is->0.created_at_ms == now
        } else {
            is == was
        },
    }
}

/// The schedule of a name after an effect.
pub open spec fn effect_shows(before: Store, after: Store, name: Seq<char>, effect: EffectView) -> bool {
    let was = schedule_row(before.schedules@, name);
    let is = schedule_row(after.schedules@, name);
    match effect {
        EffectView::Delete => is is None,
        EffectView::Keep => is == was,
        EffectView::Put { hash, runtime } => {
            &&& is is Some
            &&& is->0.mirror_name@ == name
            &&& text::opt_view(is->0.schedule_hash) == Some(hash)
            &&& is->0.runtime == runtime
        },
    }
}

/// The schedule of a name after the bundle is applied.
pub open spec fn schedule_applied(
    before: Store,
    after: Store,
    bundle: Seq<CanonicalMirror>,
    name: Seq<char>,
    now: i64,
) -> bool {
    match planned_change(before, bundle, name) {
        None => effect_shows(before, after, name, EffectView::Keep),
        Some(planned) => if planned.kind is Remove {
            effect_shows(before, after, name, EffectView::Delete)
        } else {
            let effect = schedule_effect(before, bundle[bundle_index(bundle, name)->0], planned.kind, now);
            effect is Ok && effect_shows(before, after, name, effect->Ok_0)
        },
    }
}

/// What the bundle makes of everything that has to do with a name.
pub open spec fn name_applied(
    before: Store,
    after: Store,
    bundle: Seq<CanonicalMirror>,
    name: Seq<char>,
    revision: u64,
    now: i64,
) -> bool {
    &&& mirror_applied(before, after, bundle, name, now)
    &&& forall|generation: u64| #[trigger]
        generation_applied(before, after, bundle, name, generation, revision, now)
    &&& schedule_applied(before, after, bundle, name, now)
}

/// True when everything that has to do with a name is the same.
pub open spec fn name_same(before: Store, after: Store, name: Seq<char>) -> bool {
    &&& mirror_row(after.mirrors@, name) == mirror_row(before.mirrors@, name)
    &&& forall|generation: u64| #[trigger]
        generation_row(after.generations@, name, generation) == generation_row(
            before.generations@,
            name,
            generation,
        )
    &&& schedule_row(after.schedules@, name) == schedule_row(before.schedules@, name)
}

/// What the bundle makes of the runs of a mirror.
pub open spec fn runs_retired_by(before: Store, bundle: Seq<CanonicalMirror>, name: Seq<char>) -> Option<bool> {
    match planned_change(before, bundle, name) {
        None => None,
        Some(planned) => retirement(bundle, name, planned.kind),
    }
}

/// A run after the bundle is applied.
pub open spec fn run_applied(before: Store, j: int, after: RunRow, bundle: Seq<CanonicalMirror>, now: i64) -> bool {
    match runs_retired_by(before, bundle, before.runs@[j].record.mirror_name@) {
        None => after == before.runs@[j],
        Some(withdraw) => retire::run_retired(before, j, after, now, withdraw),
    }
}

/// An attempt after the bundle is applied.
pub open spec fn attempt_applied(
    before: Store,
    i: int,
    bundle: Seq<CanonicalMirror>,
    now: i64,
) -> tables::AttemptRow {
    match runs_retired_by(before, bundle, run_row(before, i).record.mirror_name@) {
        None => before.attempts@[i],
        Some(withdraw) => retire::attempt_retired(before, i, now, withdraw),
    }
}

/// The words under which a revision lists a change.
pub open spec fn change_summary(change: ConfigChange) -> Seq<char> {
    (match change.kind {
        ChangeKind::Create => "Create"@,
        ChangeKind::Update => "Update"@,
        ChangeKind::Remove => "Remove"@,
        ChangeKind::Move => "Move"@,
    }) + ":"@ + change.mirror@
}

/// The revisions with one more.
pub open spec fn revision_added(
    before: Seq<RevisionRow>,
    after: Seq<RevisionRow>,
    revision: u64,
    bundle_hash: Seq<char>,
    actor: Seq<char>,
    now: i64,
    changes: Seq<ConfigChange>,
) -> bool {
    let row = after.last();
    &&& after == before.push(row)
    &&& row.revision == revision
    &&& row.bundle_hash@ == bundle_hash
    &&& row.actor@ == actor
    &&& row.applied_at_ms == now
    &&& text::views(row.summary@) == changes.map_values(|change: ConfigChange| change_summary(change))
}

/// The tables after a bundle is applied, apart from the revisions.
pub open spec fn bundle_applied(
    before: Store,
    after: Store,
    bundle: Seq<CanonicalMirror>,
    revision: u64,
    now: i64,
) -> bool {
    &&& after.nodes == before.nodes
    &&& after.credentials == before.credentials
    &&& after.logs == before.logs
    &&& forall|name: Seq<char>| #[trigger] name_applied(before, after, bundle, name, revision, now)
    &&& after.runs@.len() == before.runs@.len()
    &&& forall|j: int|
        0 <= j < before.runs@.len() ==> run_applied(before, j, #[trigger] after.runs@[j], bundle, now)
    &&& after.attempts@.len() == before.attempts@.len()
    &&& forall|i: int|
        0 <= i < before.attempts@.len() ==> (#[trigger] after.attempts@[i]) == attempt_applied(before, i, bundle, now)
}

fn effect_of(store: &Store, next: &CanonicalMirror, kind: ChangeKind, now: i64) -> (r: Result<ScheduleEffect, String>)
    ensures
        match r {
            Ok(effect) => schedule_effect(*store, *next, kind, now) == Ok::<EffectView, Seq<char>>(effect@),
            Err(message) => schedule_effect(*store, *next, kind, now) == Err::<EffectView, Seq<char>>(message@),
        },
{
    let config: &ScheduleConfig = match &next.document.schedule {
        None => {
            return Ok(ScheduleEffect::Delete);
        },
        Some(value) => value,
    };
    if !next.document.mirror.enabled {
        return Ok(ScheduleEffect::Delete);
    }
    let hash: String = config.semantic_hash();
    let name: &str = next.document.mirror.name.as_str();
    let unchanged_owner: bool = match tables::find_mirror(&store.mirrors, name) {
        None => false,
        Some(i) => store.mirrors[i].managed && store.mirrors[i].enabled && text::same(
            store.mirrors[i].owner_node.as_str(),
            next.owner_node.as_str(),
        ),
    };
    let same_schedule: bool = match tables::find_schedule(&store.schedules, name) {
        None => false,
        Some(i) => text::same_opt(&store.schedules[i].schedule_hash, hash.as_str()),
    };
    let resets: bool = kind == ChangeKind::Create || kind == ChangeKind::Move || !unchanged_owner || !same_schedule;
    if resets {
        match schedule::activate_schedule(config, now) {
            Err(message) => Err(message),
            Ok(runtime) => Ok(ScheduleEffect::Put { hash, runtime }),
        }
    } else {
        Ok(ScheduleEffect::Keep)
    }
}

fn summary_of(change: &ConfigChange) -> (r: String)
    ensures
        r@ == change_summary(*change),
{
    let kind: &str = match change.kind {
        ChangeKind::Create => "Create",
        ChangeKind::Update => "Update",
        ChangeKind::Remove => "Remove",
        ChangeKind::Move => "Move",
    };
    text::join3(kind, ":", change.mirror.as_str())
}

fn summaries_of(changes: &Vec<ConfigChange>) -> (r: Vec<String>)
    ensures
        text::views(r@) == changes@.map_values(|change: ConfigChange| change_summary(change)),
{
    let mut out: Vec<String> = Vec::new();
    let mut i: usize = 0;
    while i < changes.len()
        invariant
            i <= changes.len(),
            out@.len() == i,
            forall|k: int| 0 <= k < i ==> (#[trigger] out@[k])@ == change_summary(changes@[k]),
        decreases changes.len() - i,
    {
        out.push(summary_of(&changes[i]));
        i = i + 1;
    }
    assert(text::views(out@) == changes@.map_values(|change: ConfigChange| change_summary(change)));
    out
}

/// True when the tables other than mirrors and generations are the same.
pub open spec fn only_mirrors_change(before: Store, after: Store) -> bool {
    &&& after.revisions == before.revisions
    &&& after.schedules == before.schedules
    &&& after.runs == before.runs
    &&& after.attempts == before.attempts
    &&& after.nodes == before.nodes
    &&& after.credentials == before.credentials
    &&& after.logs == before.logs
}

/// True when the tables other than schedules are the same.
pub open spec fn only_schedules_change(before: Store, after: Store) -> bool {
    &&& after.revisions == before.revisions
    &&& after.mirrors == before.mirrors
    &&& after.generations == before.generations
    &&& after.runs == before.runs
    &&& after.attempts == before.attempts
    &&& after.nodes == before.nodes
    &&& after.credentials == before.credentials
    &&& after.logs == before.logs
}

impl Store {
    fn drop_mirror(&mut self, name: &str, now: i64)
        requires
            old(self).wf(),
        ensures
            final(self).wf(),
            only_mirrors_change(*old(self), *final(self)),
            final(self).generations == old(self).generations,
            forall|other: Seq<char>| #[trigger]
                mirror_row(final(self).mirrors@, other) == (if other == name@ && mirror_row(
                    old(self).mirrors@,
                    name@,
                ) is Some {
                    Some(
                        MirrorRow {
                            managed: false,
                            removed_at_ms: Some(now),
                            ..mirror_row(old(self).mirrors@, name@)->0
                        },
                    )
                } else {
                    mirror_row(old(self).mirrors@, other)
                }),
    {
        let ghost start = *self;
        if let Some(i) = tables::find_mirror(&self.mirrors, name) {
            let row: &mut MirrorRow = &mut self.mirrors[i];
            row.managed = false;
            row.removed_at_ms = Some(now);
            proof {
                lookup::lemma_mirror_changed(start.mirrors@, i as int, self.mirrors@[i as int]);
                assert(self.mirrors@ == start.mirrors@.update(i as int, self.mirrors@[i as int]));
                lemma_mirrors_keep_references(start, *self);
            }
        }
    }

    fn put_mirror(&mut self, next: &CanonicalMirror, generation: u64, revision: u64, now: i64)
        requires
            old(self).wf(),
            generation <= MAX_NUMBER,
            match mirror_row(old(self).mirrors@, next.name()) {
                Some(row) => generation > row.current_generation,
                None => true,
            },
        ensures
            final(self).wf(),
            only_mirrors_change(*old(self), *final(self)),
            forall|other: Seq<char>|
                other != next.name() ==> #[trigger] mirror_row(final(self).mirrors@, other) == mirror_row(
                    old(self).mirrors@,
                    other,
                ),
            forall|other: Seq<char>, g: u64|
                other != next.name() || g != generation ==> #[trigger] generation_row(
                    final(self).generations@,
                    other,
                    g,
                ) == generation_row(old(self).generations@, other, g),
            ({
                let is = mirror_row(final(self).mirrors@, next.name());
                &&& is is Some
                &&& is->0.name@ == next.name()
                &&& is->0.managed
                &&& is->0.enabled == next.document.mirror.enabled
                &&& is->0.owner_node@ == next.owner_node@
                &&& is->0.current_generation == generation
                &&& is->0.removed_at_ms is None
            }),
            ({
                let is = generation_row(final(self).generations@, next.name(), generation);
                &&& is is Some
                &&& is->0.mirror_name@ == next.name()
                &&& is->0.generation == generation
                &&& is->0.config_revision == revision
                &&& is->0.owner_node@ == next.owner_node@
                &&& is->0.config_hash == next.config_hash
                &&& is->0.config_toml == next.canonical_toml
                &&& is->0.publication == next.document.mode()
                &&& is->0.created_at_ms == now
            }),
    {
        let ghost start = *self;
        let name: &str = next.document.mirror.name.as_str();
        let row: GenerationRow = GenerationRow {
            mirror_name: name.to_owned(),
            generation,
            config_revision: revision,
            owner_node: next.owner_node.as_str().to_owned(),
            config_hash: next.config_hash.clone(),
            config_toml: next.canonical_toml.clone(),
            publication: next.document.publication_mode(),
            created_at_ms: now,
        };
        proof {
            tables::lemma_mirror_index(start.mirrors@, name@);
            assert(!wellformed::has_generation(start.generations@, name@, generation)) by {
                if wellformed::has_generation(start.generations@, name@, generation) {
                    let g = choose|g: int|
                        0 <= g < start.generations@.len() && (#[trigger] start.generations@[g]).mirror_name@ == name@
                            && start.generations@[g].generation == generation;
                    assert(wellformed::has_mirror(start.mirrors@, start.generations@[g].mirror_name@));
                    let m = tables::mirror_index(start.mirrors@, name@)->0;
                    assert(start.generations@[g].mirror_name@ == start.mirrors@[m].name@);
                }
            }
            lookup::lemma_generation_pushed(start.generations@, row);
        }
        match tables::find_mirror(&self.mirrors, name) {
            Some(i) => {
                let mirror: &mut MirrorRow = &mut self.mirrors[i];
                mirror.managed = true;
                mirror.enabled = next.document.mirror.enabled;
                mirror.owner_node = next.owner_node.as_str().to_owned();
                mirror.current_generation = generation;
                mirror.removed_at_ms = None;
                proof {
                    lookup::lemma_mirror_changed(start.mirrors@, i as int, self.mirrors@[i as int]);
                    assert(self.mirrors@ == start.mirrors@.update(i as int, self.mirrors@[i as int]));
                }
            },
            None => {
                self.mirrors.push(
                    MirrorRow {
                        name: name.to_owned(),
                        managed: true,
                        enabled: next.document.mirror.enabled,
                        owner_node: next.owner_node.as_str().to_owned(),
                        current_generation: generation,
                        removed_at_ms: None,
                    },
                );
                proof {
                    lookup::lemma_mirror_pushed(start.mirrors@, self.mirrors@.last());
                    assert(self.mirrors@ == start.mirrors@.push(self.mirrors@.last()));
                }
            },
        }
        self.generations.push(row);
        proof {
            assert(self.generations@ == start.generations@.push(row));
            lemma_generation_added_keeps_references(start, *self, name@, generation);
        }
    }

    fn set_schedule(&mut self, name: &str, effect: ScheduleEffect)
        requires
            old(self).wf(),
            effect is Put ==> wellformed::has_mirror(old(self).mirrors@, name@),
        ensures
            final(self).wf(),
            only_schedules_change(*old(self), *final(self)),
            forall|other: Seq<char>|
                other != name@ ==> #[trigger] schedule_row(final(self).schedules@, other) == schedule_row(
                    old(self).schedules@,
                    other,
                ),
            effect_shows(*old(self), *final(self), name@, effect@),
    {
        let ghost start = *self;
        match effect {
            ScheduleEffect::Keep => {},
            ScheduleEffect::Delete => {
                if let Some(i) = tables::find_schedule(&self.schedules, name) {
                    proof {
                        lookup::lemma_schedule_removed(start.schedules@, i as int);
                    }
                    let _row: ScheduleRow = self.schedules.remove(i);
                    proof {
                        assert(self.schedules@ == start.schedules@.remove(i as int));
                        assert forall|k: int| 0 <= k < self.schedules@.len() implies wellformed::has_mirror(
                            self.mirrors@,
                            (#[trigger] self.schedules@[k]).mirror_name@,
                        ) by {
                            let p = if k < i { k } else { k + 1 };
                            assert(self.schedules@[k] == start.schedules@[p]);
                        }
                    }
                }
            },
            ScheduleEffect::Put { hash, runtime } => {
                match tables::find_schedule(&self.schedules, name) {
                    Some(i) => {
                        let row: &mut ScheduleRow = &mut self.schedules[i];
                        row.schedule_hash = Some(hash);
                        row.runtime = runtime;
                        proof {
                            lookup::lemma_schedule_changed(start.schedules@, i as int, self.schedules@[i as int]);
                            assert(self.schedules@ == start.schedules@.update(i as int, self.schedules@[i as int]));
                            assert forall|k: int| 0 <= k < self.schedules@.len() implies wellformed::has_mirror(
                                self.mirrors@,
                                (#[trigger] self.schedules@[k]).mirror_name@,
                            ) by {
                                assert(wellformed::has_mirror(start.mirrors@, start.schedules@[k].mirror_name@));
                            }
                        }
                    },
                    None => {
                        self.schedules.push(
                            ScheduleRow { mirror_name: name.to_owned(), schedule_hash: Some(hash), runtime },
                        );
                        proof {
                            lookup::lemma_schedule_pushed(start.schedules@, self.schedules@.last());
                            assert(self.schedules@ == start.schedules@.push(self.schedules@.last()));
                            assert forall|k: int| 0 <= k < self.schedules@.len() implies wellformed::has_mirror(
                                self.mirrors@,
                                (#[trigger] self.schedules@[k]).mirror_name@,
                            ) by {
                                if k < start.schedules@.len() {
                                    assert(wellformed::has_mirror(start.mirrors@, start.schedules@[k].mirror_name@));
                                }
                            }
                        }
                    },
                }
            },
        }
    }
}

/// Changing flags of mirrors keeps every reference.
proof fn lemma_mirrors_keep_references(before: Store, after: Store)
    requires
        before.wf(),
        only_mirrors_change(before, after),
        after.generations == before.generations,
        wellformed::mirrors_unique(after.mirrors@),
        after.mirrors@.len() == before.mirrors@.len(),
        forall|i: int|
            0 <= i < before.mirrors@.len() ==> (#[trigger] after.mirrors@[i]).name == before.mirrors@[i].name
                && after.mirrors@[i].current_generation == before.mirrors@[i].current_generation,
    ensures
        after.wf(),
{
    assert forall|name: Seq<char>| #[trigger] wellformed::has_mirror(before.mirrors@, name) implies wellformed::has_mirror(
        after.mirrors@,
        name,
    ) by {
        let w = choose|w: int| 0 <= w < before.mirrors@.len() && (#[trigger] before.mirrors@[w]).name@ == name;
        assert(after.mirrors@[w].name@ == name);
    }
    assert forall|i: int| 0 <= i < after.mirrors@.len() implies wellformed::has_generation(
        after.generations@,
        (#[trigger] after.mirrors@[i]).name@,
        after.mirrors@[i].current_generation,
    ) && after.mirrors@[i].current_generation <= MAX_NUMBER by {
        assert(before.mirrors@[i].name@ == after.mirrors@[i].name@);
    }
    assert forall|i: int, j: int|
        0 <= i < after.generations@.len() && 0 <= j < after.mirrors@.len() && (
        #[trigger] after.generations@[i]).mirror_name@ == (#[trigger] after.mirrors@[j]).name@ implies after.generations@[i].generation
        <= after.mirrors@[j].current_generation by {
        assert(before.mirrors@[j].name@ == after.mirrors@[j].name@);
    }
}

/// Adding the next generation of a mirror keeps every reference.
proof fn lemma_generation_added_keeps_references(before: Store, after: Store, name: Seq<char>, generation: u64)
    requires
        before.wf(),
        only_mirrors_change(before, after),
        generation <= MAX_NUMBER,
        wellformed::mirrors_unique(after.mirrors@),
        wellformed::generations_unique(after.generations@),
        after.generations@.len() == before.generations@.len() + 1,
        after.generations@ == before.generations@.push(after.generations@.last()),
        after.generations@.last().mirror_name@ == name,
        after.generations@.last().generation == generation,
        forall|other: Seq<char>|
            other != name ==> #[trigger] mirror_row(after.mirrors@, other) == mirror_row(before.mirrors@, other),
        mirror_row(after.mirrors@, name) is Some,
        mirror_row(after.mirrors@, name)->0.current_generation == generation,
        mirror_row(before.mirrors@, name) is Some ==> mirror_row(before.mirrors@, name)->0.current_generation
            < generation,
    ensures
        after.wf(),
{
    let last = after.generations@.len() - 1;
    assert forall|other: Seq<char>| #[trigger] wellformed::has_mirror(before.mirrors@, other) implies wellformed::has_mirror(
        after.mirrors@,
        other,
    ) by {
        tables::lemma_mirror_index(before.mirrors@, other);
        tables::lemma_mirror_index(after.mirrors@, other);
        if other != name {
            assert(mirror_row(after.mirrors@, other) == mirror_row(before.mirrors@, other));
        }
        assert(after.mirrors@[tables::mirror_index(after.mirrors@, other)->0].name@ == other);
    }
    assert(wellformed::has_mirror(after.mirrors@, name)) by {
        tables::lemma_mirror_index(after.mirrors@, name);
        assert(after.mirrors@[tables::mirror_index(after.mirrors@, name)->0].name@ == name);
    }
    assert forall|other: Seq<char>, g: u64| #[trigger]
        wellformed::has_generation(before.generations@, other, g) implies wellformed::has_generation(
        after.generations@,
        other,
        g,
    ) by {
        let w = choose|w: int|
            0 <= w < before.generations@.len() && (#[trigger] before.generations@[w]).mirror_name@ == other
                && before.generations@[w].generation == g;
        assert(after.generations@[w].mirror_name@ == other);
    }
    assert forall|i: int| 0 <= i < after.mirrors@.len() implies wellformed::has_generation(
        after.generations@,
        (#[trigger] after.mirrors@[i]).name@,
        after.mirrors@[i].current_generation,
    ) && after.mirrors@[i].current_generation <= MAX_NUMBER by {
        let other = after.mirrors@[i].name@;
        tables::lemma_mirror_index(after.mirrors@, other);
        assert(tables::mirror_index(after.mirrors@, other) == Some(i));
        if other == name {
            assert(after.generations@[last].mirror_name@ == name);
        } else {
            tables::lemma_mirror_index(before.mirrors@, other);
            assert(mirror_row(after.mirrors@, other) == mirror_row(before.mirrors@, other));
            let w = tables::mirror_index(before.mirrors@, other)->0;
            assert(before.mirrors@[w] == after.mirrors@[i]);
        }
    }
    assert forall|i: int| 0 <= i < after.generations@.len() implies wellformed::has_mirror(
        after.mirrors@,
        (#[trigger] after.generations@[i]).mirror_name@,
    ) by {
        if i < before.generations@.len() {
            assert(wellformed::has_mirror(before.mirrors@, before.generations@[i].mirror_name@));
        }
    }
    assert forall|i: int, j: int|
        0 <= i < after.generations@.len() && 0 <= j < after.mirrors@.len() && (
        #[trigger] after.generations@[i]).mirror_name@ == (#[trigger] after.mirrors@[j]).name@ implies after.generations@[i].generation
        <= after.mirrors@[j].current_generation by {
        let other = after.mirrors@[j].name@;
        tables::lemma_mirror_index(after.mirrors@, other);
        assert(tables::mirror_index(after.mirrors@, other) == Some(j));
        if i < before.generations@.len() {
            assert(before.generations@[i] == after.generations@[i]);
            assert(wellformed::has_mirror(before.mirrors@, before.generations@[i].mirror_name@));
            tables::lemma_mirror_index(before.mirrors@, other);
            let w = tables::mirror_index(before.mirrors@, other)->0;
            assert(before.generations@[i].mirror_name@ == before.mirrors@[w].name@);
            if other != name {
                assert(mirror_row(after.mirrors@, other) == mirror_row(before.mirrors@, other));
            }
        }
    }
    assert forall|k: int| 0 <= k < after.runs@.len() implies wellformed::has_mirror(
        after.mirrors@,
        (#[trigger] after.runs@[k]).record.mirror_name@,
    ) && wellformed::has_generation(
        after.generations@,
        after.runs@[k].record.mirror_name@,
        after.runs@[k].record.mirror_generation,
    ) by {
        assert(wellformed::has_mirror(before.mirrors@, before.runs@[k].record.mirror_name@));
    }
    assert forall|k: int| 0 <= k < after.schedules@.len() implies wellformed::has_mirror(
        after.mirrors@,
        (#[trigger] after.schedules@[k]).mirror_name@,
    ) by {
        assert(wellformed::has_mirror(before.mirrors@, before.schedules@[k].mirror_name@));
    }
}

/// The runs and attempts of a mirror after a change.
pub open spec fn retirement_shows(before: Store, after: Store, name: Seq<char>, now: i64, retired: Option<bool>) -> bool {
    &&& after.runs@.len() == before.runs@.len()
    &&& forall|j: int|
        0 <= j < before.runs@.len() ==> if retired is Some && before.runs@[j].record.mirror_name@ == name {
            retire::run_retired(before, j, #[trigger] after.runs@[j], now, retired->0)
        } else {
            after.runs@[j] == before.runs@[j]
        }
    &&& after.attempts@.len() == before.attempts@.len()
    &&& forall|i: int|
        0 <= i < before.attempts@.len() ==> (#[trigger] after.attempts@[i]) == (if retired is Some && run_row(
            before,
            i,
        ).record.mirror_name@ == name {
            retire::attempt_retired(before, i, now, retired->0)
        } else {
            before.attempts@[i]
        })
}

/// The tables after one change, apart from the revisions.
pub open spec fn change_shows(
    before: Store,
    after: Store,
    bundle: Seq<CanonicalMirror>,
    change: ConfigChange,
    effect: EffectView,
    revision: u64,
    now: i64,
) -> bool {
    let name = change.mirror@;
    &&& after.revisions == before.revisions
    &&& after.nodes == before.nodes
    &&& after.credentials == before.credentials
    &&& after.logs == before.logs
    &&& forall|other: Seq<char>| other != name ==> #[trigger] name_same(before, after, other)
    &&& retirement_shows(before, after, name, now, retirement(bundle, name, change.kind))
    &&& effect_shows(before, after, name, effect)
    &&& if change.kind is Remove {
        &&& mirror_row(after.mirrors@, name) == Some(
            MirrorRow { managed: false, removed_at_ms: Some(now), ..mirror_row(before.mirrors@, name)->0 },
        )
        &&& forall|g: u64| #[trigger]
            generation_row(after.generations@, name, g) == generation_row(before.generations@, name, g)
    } else {
        let next = bundle[bundle_index(bundle, name)->0];
        let generation = change.to_generation->0;
        let is = mirror_row(after.mirrors@, name);
        let added = generation_row(after.generations@, name, generation);
        &&& is is Some
        &&& is->0.name@ == name
        &&& is->0.managed
        &&& is->0.enabled == next.document.mirror.enabled
        &&& is->0.owner_node@ == next.owner_node@
        &&& is->0.current_generation == generation
        &&& is->0.removed_at_ms is None
        &&& added is Some
        &&& added->0.mirror_name@ == name
        &&& added->0.generation == generation
        &&& added->0.config_revision == revision
        &&& added->0.owner_node@ == next.owner_node@
        &&& added->0.config_hash == next.config_hash
        &&& added->0.config_toml == next.canonical_toml
        &&& added->0.publication == next.document.mode()
        &&& added->0.created_at_ms == now
        &&& forall|g: u64|
            g != generation ==> #[trigger] generation_row(after.generations@, name, g) == generation_row(
                before.generations@,
                name,
                g,
            )
    }
}

impl Store {
    fn apply_change(
        &mut self,
        bundle: &CanonicalBundle,
        change: &ConfigChange,
        effect: ScheduleEffect,
        revision: u64,
        now: i64,
    )
        requires
            old(self).wf(),
            if change.kind is Remove {
                mirror_row(old(self).mirrors@, change.mirror@) is Some && effect@ == EffectView::Delete
            } else {
                &&& bundle_index(bundle.mirrors@, change.mirror@) is Some
                &&& change.to_generation is Some
                &&& change.to_generation->0 <= MAX_NUMBER
                &&& match mirror_row(old(self).mirrors@, change.mirror@) {
                    Some(row) => change.to_generation->0 > row.current_generation,
                    None => true,
                }
            },
        ensures
            final(self).wf(),
            change_shows(*old(self), *final(self), bundle.mirrors@, *change, effect@, revision, now),
    {
        let ghost start = *self;
        let name: &str = change.mirror.as_str();
        if change.kind == ChangeKind::Remove {
            self.drop_mirror(name, now);
            let ghost dropped = *self;
            self.retire_mirror(name, now, true);
            proof {
                lemma_retirement_unmoved(start, dropped, *self, name@, now, true);
            }
            self.set_schedule(name, effect);
        } else {
            proof {
                planning::lemma_bundle_index(bundle.mirrors@, name@);
            }
            let b: usize = planning::find_in_bundle(&bundle.mirrors, name).unwrap();
            let next: &CanonicalMirror = &bundle.mirrors[b];
            let generation: u64 = change.to_generation.unwrap();
            self.put_mirror(next, generation, revision, now);
            let ghost put = *self;
            proof {
                tables::lemma_mirror_index(put.mirrors@, name@);
                assert(put.mirrors@[tables::mirror_index(put.mirrors@, name@)->0].name@ == name@);
            }
            if !next.document.mirror.enabled {
                self.retire_mirror(name, now, true);
                proof {
                    lemma_retirement_unmoved(start, put, *self, name@, now, true);
                }
            } else if change.kind == ChangeKind::Move {
                self.retire_mirror(name, now, false);
                proof {
                    lemma_retirement_unmoved(start, put, *self, name@, now, false);
                }
            }
            self.set_schedule(name, effect);
        }
    }
}

/// What retiring the runs of a mirror comes to rests on runs and attempts alone.
proof fn lemma_retirement_unmoved(start: Store, middle: Store, after: Store, name: Seq<char>, now: i64, withdraw: bool)
    requires
        middle.runs == start.runs,
        middle.attempts == start.attempts,
        retire::mirror_retired(middle, after, name, now, withdraw),
    ensures
        retirement_shows(start, after, name, now, Some(withdraw)),
{
    assert forall|j: int| 0 <= j < start.runs@.len() implies if start.runs@[j].record.mirror_name@ == name {
        retire::run_retired(start, j, #[trigger] after.runs@[j], now, withdraw)
    } else {
        after.runs@[j] == start.runs@[j]
    } by {
        if start.runs@[j].record.mirror_name@ == name {
            assert(retire::run_retired(middle, j, after.runs@[j], now, withdraw));
        }
    }
    assert forall|i: int| 0 <= i < start.attempts@.len() implies (#[trigger] after.attempts@[i]) == (if run_row(
        start,
        i,
    ).record.mirror_name@ == name {
        retire::attempt_retired(start, i, now, withdraw)
    } else {
        start.attempts@[i]
    }) by {
        assert(run_row(middle, i) == run_row(start, i));
        assert(retire::attempt_retired(middle, i, now, withdraw) == retire::attempt_retired(start, i, now, withdraw));
    }
}

/// The place of a run rests on its identifier alone.
proof fn lemma_run_index_kept(before: Seq<RunRow>, after: Seq<RunRow>, id: Seq<char>)
    requires
        after.len() == before.len(),
        forall|j: int| 0 <= j < before.len() ==> (#[trigger] after[j]).record.id == before[j].record.id,
    ensures
        tables::run_index(after, id) == tables::run_index(before, id),
    decreases before.len(),
{
    if before.len() > 0 {
        assert(after.last().record.id == before.last().record.id);
        assert forall|j: int| 0 <= j < before.drop_last().len() implies (#[trigger] after.drop_last()[j]).record.id
            == before.drop_last()[j].record.id by {
            assert(after[j].record.id == before[j].record.id);
        }
        lemma_run_index_kept(before.drop_last(), after.drop_last(), id);
    }
}

/// What the changes so far have made of a name.
spec fn name_carried(
    start: Store,
    now_at: Store,
    bundle: Seq<CanonicalMirror>,
    changes: Seq<ConfigChange>,
    name: Seq<char>,
    revision: u64,
    now: i64,
) -> bool {
    if planning::changes_mirror(changes, name) {
        name_applied(start, now_at, bundle, name, revision, now)
    } else {
        name_same(start, now_at, name)
    }
}

/// How far the changes of a plan have been carried out.
spec fn carried_out(
    start: Store,
    now_at: Store,
    bundle: Seq<CanonicalMirror>,
    changes: Seq<ConfigChange>,
    revision: u64,
    now: i64,
) -> bool {
    &&& now_at.nodes == start.nodes
    &&& now_at.credentials == start.credentials
    &&& now_at.logs == start.logs
    &&& forall|name: Seq<char>| #[trigger] name_carried(start, now_at, bundle, changes, name, revision, now)
    &&& now_at.runs@.len() == start.runs@.len()
    &&& forall|j: int|
        0 <= j < start.runs@.len() ==> (#[trigger] now_at.runs@[j]).record.id == start.runs@[j].record.id
            && now_at.runs@[j].record.mirror_name == start.runs@[j].record.mirror_name && if planning::changes_mirror(
            changes,
            start.runs@[j].record.mirror_name@,
        ) {
            run_applied(start, j, now_at.runs@[j], bundle, now)
        } else {
            now_at.runs@[j] == start.runs@[j]
        }
    &&& now_at.attempts@.len() == start.attempts@.len()
    &&& forall|i: int|
        0 <= i < start.attempts@.len() ==> (#[trigger] now_at.attempts@[i]).record.run_id
            == start.attempts@[i].record.run_id && now_at.attempts@[i].record.attempt_no
            == start.attempts@[i].record.attempt_no && now_at.attempts@[i].dispatch_count
            == start.attempts@[i].dispatch_count && now_at.attempts@[i] == (if planning::changes_mirror(
            changes,
            run_row(start, i).record.mirror_name@,
        ) {
            attempt_applied(start, i, bundle, now)
        } else {
            start.attempts@[i]
        })
}

/// Carrying out the next change carries the plan one change further.
proof fn lemma_carried_further(
    start: Store,
    middle: Store,
    after: Store,
    bundle: Seq<CanonicalMirror>,
    changes: Seq<ConfigChange>,
    c: int,
    effect: EffectView,
    revision: u64,
    now: i64,
)
    requires
        start.wf(),
        0 <= c < changes.len(),
        planning::is_plan(start, bundle, changes),
        carried_out(start, middle, bundle, changes.take(c), revision, now),
        change_shows(middle, after, bundle, changes[c], effect, revision, now),
        changes[c].kind is Remove ==> effect == EffectView::Delete,
        !(changes[c].kind is Remove) ==> schedule_effect(
            start,
            bundle[bundle_index(bundle, changes[c].mirror@)->0],
            changes[c].kind,
            now,
        ) == Ok::<EffectView, Seq<char>>(effect),
    ensures
        carried_out(start, after, bundle, changes.take(c + 1), revision, now),
{
    let change = changes[c];
    let name = change.mirror@;
    let done = changes.take(c);
    let further = changes.take(c + 1);
    assert(planned_change(start, bundle, name) == Some(change.planned()));
    assert(!planning::changes_mirror(done, name)) by {
        if planning::changes_mirror(done, name) {
            let k = choose|k: int| 0 <= k < done.len() && (#[trigger] done[k]).mirror@ == name;
            assert(done[k] == changes[k]);
            text::lemma_lex_less_total(changes[k].mirror@, changes[c].mirror@);
            assert(text::lex_less(changes[k].mirror@, changes[c].mirror@));
        }
    }
    assert forall|other: Seq<char>| #[trigger] planning::changes_mirror(further, other) == (planning::changes_mirror(
        done,
        other,
    ) || other == name) by {
        assert(further[c] == change);
        if planning::changes_mirror(done, other) {
            let k = choose|k: int| 0 <= k < done.len() && (#[trigger] done[k]).mirror@ == other;
            assert(further[k] == done[k]);
        }
        if planning::changes_mirror(further, other) {
            let k = choose|k: int| 0 <= k < further.len() && (#[trigger] further[k]).mirror@ == other;
            if k < c {
                assert(done[k] == further[k]);
            }
        }
    }
    assert forall|other: Seq<char>| #[trigger] name_carried(
        start,
        after,
        bundle,
        further,
        other,
        revision,
        now,
    ) by {
        if other == name {
            assert(name_same(start, middle, name)) by {
                assert(name_carried(start, middle, bundle, done, name, revision, now));
            }
            assert(mirror_applied(start, after, bundle, name, now));
            assert forall|g: u64| #[trigger] generation_applied(start, after, bundle, name, g, revision, now) by {
                assert(generation_row(middle.generations@, name, g) == generation_row(start.generations@, name, g));
                if change.kind is Remove || Some(g) != change.to_generation {
                    assert(generation_row(after.generations@, name, g) == generation_row(
                        middle.generations@,
                        name,
                        g,
                    ));
                }
            }
            assert(schedule_applied(start, after, bundle, name, now));
        } else {
            assert(name_same(middle, after, other));
            assert(name_carried(start, middle, bundle, done, other, revision, now));
            if planning::changes_mirror(done, other) {
                assert forall|g: u64| #[trigger] generation_applied(start, after, bundle, other, g, revision, now) by {
                    assert(generation_applied(start, middle, bundle, other, g, revision, now));
                    assert(generation_row(after.generations@, other, g) == generation_row(
                        middle.generations@,
                        other,
                        g,
                    ));
                }
            } else {
                assert forall|g: u64| #[trigger] generation_row(after.generations@, other, g) == generation_row(
                    start.generations@,
                    other,
                    g,
                ) by {
                    assert(generation_row(middle.generations@, other, g) == generation_row(
                        start.generations@,
                        other,
                        g,
                    ));
                }
            }
        }
    }
    let retired = retirement(bundle, name, change.kind);
    assert forall|run_id: Seq<char>| #[trigger] retire::dispatched_once(middle.attempts@, run_id)
        == retire::dispatched_once(start.attempts@, run_id) by {
        if retire::dispatched_once(start.attempts@, run_id) {
            let i = choose|i: int|
                0 <= i < start.attempts@.len() && (#[trigger] start.attempts@[i]).record.run_id@ == run_id
                    && start.attempts@[i].dispatch_count > 0;
            assert(middle.attempts@[i].record.run_id@ == run_id);
        }
        if retire::dispatched_once(middle.attempts@, run_id) {
            let i = choose|i: int|
                0 <= i < middle.attempts@.len() && (#[trigger] middle.attempts@[i]).record.run_id@ == run_id
                    && middle.attempts@[i].dispatch_count > 0;
            assert(start.attempts@[i].record.run_id@ == run_id);
        }
    }
    assert forall|j: int| 0 <= j < start.runs@.len() implies (#[trigger] after.runs@[j]).record.id
        == start.runs@[j].record.id && after.runs@[j].record.mirror_name == start.runs@[j].record.mirror_name
        && if planning::changes_mirror(further, start.runs@[j].record.mirror_name@) {
        run_applied(start, j, after.runs@[j], bundle, now)
    } else {
        after.runs@[j] == start.runs@[j]
    } by {
        assert(middle.runs@[j].record.id == start.runs@[j].record.id);
        let run = start.runs@[j];
        if run.record.mirror_name@ == name {
            assert(middle.runs@[j] == run);
            if retired is Some {
                assert(retire::run_retired(middle, j, after.runs@[j], now, retired->0));
                retire::lemma_attempt_index_kept(
                    start.attempts@,
                    middle.attempts@,
                    run.record.id@,
                    run.attempt_count,
                );
                tables::lemma_attempt_index(start.attempts@, run.record.id@, run.attempt_count);
                if let Some(a) = tables::attempt_index(start.attempts@, run.record.id@, run.attempt_count) {
                    tables::lemma_run_index(start.runs@, start.attempts@[a].record.run_id@);
                    assert(wellformed::has_run(start.runs@, start.attempts@[a].record.run_id@));
                    assert(run_row(start, a) == run);
                    assert(middle.attempts@[a] == start.attempts@[a]);
                }
                assert(retire::run_retired(start, j, after.runs@[j], now, retired->0));
            }
        }
    }
    assert forall|i: int| 0 <= i < start.attempts@.len() implies (#[trigger] after.attempts@[i]).record.run_id
        == start.attempts@[i].record.run_id && after.attempts@[i].record.attempt_no
        == start.attempts@[i].record.attempt_no && after.attempts@[i].dispatch_count
        == start.attempts@[i].dispatch_count && after.attempts@[i] == (if planning::changes_mirror(
        further,
        run_row(start, i).record.mirror_name@,
    ) {
        attempt_applied(start, i, bundle, now)
    } else {
        start.attempts@[i]
    }) by {
        assert(middle.attempts@[i].record.run_id == start.attempts@[i].record.run_id);
        lemma_run_index_kept(start.runs@, middle.runs@, start.attempts@[i].record.run_id@);
        tables::lemma_run_index(start.runs@, start.attempts@[i].record.run_id@);
        assert(wellformed::has_run(start.runs@, start.attempts@[i].record.run_id@));
        let j = super::events::run_of(start, i);
        assert(middle.runs@[j].record.mirror_name == start.runs@[j].record.mirror_name);
        assert(run_row(middle, i) == middle.runs@[j]);
        if run_row(start, i).record.mirror_name@ == name {
            assert(middle.attempts@[i] == start.attempts@[i]);
            assert(middle.runs@[j] == start.runs@[j]);
        }
    }
}

/// Once every change is carried out the bundle is applied.
proof fn lemma_all_carried_out(
    start: Store,
    after: Store,
    bundle: Seq<CanonicalMirror>,
    changes: Seq<ConfigChange>,
    revision: u64,
    now: i64,
)
    requires
        planning::is_plan(start, bundle, changes),
        carried_out(start, after, bundle, changes, revision, now),
    ensures
        bundle_applied(start, after, bundle, revision, now),
{
    assert forall|name: Seq<char>| #[trigger] name_applied(start, after, bundle, name, revision, now) by {
        assert(name_carried(start, after, bundle, changes, name, revision, now));
        if !planning::changes_mirror(changes, name) {
            assert(planned_change(start, bundle, name) is None);
            assert forall|g: u64| #[trigger] generation_applied(start, after, bundle, name, g, revision, now) by {
                assert(generation_row(after.generations@, name, g) == generation_row(start.generations@, name, g));
            }
        }
    }
    assert forall|j: int| 0 <= j < start.runs@.len() implies run_applied(
        start,
        j,
        #[trigger] after.runs@[j],
        bundle,
        now,
    ) by {
        let name = start.runs@[j].record.mirror_name@;
        if !planning::changes_mirror(changes, name) {
            assert(planned_change(start, bundle, name) is None);
        }
    }
    assert forall|i: int| 0 <= i < start.attempts@.len() implies (#[trigger] after.attempts@[i]) == attempt_applied(
        start,
        i,
        bundle,
        now,
    ) by {
        let name = run_row(start, i).record.mirror_name@;
        if !planning::changes_mirror(changes, name) {
            assert(planned_change(start, bundle, name) is None);
        }
    }
}

/// True when every stored mirror has a valid name.
pub open spec fn names_valid(s: Store) -> bool {
    forall|i: int| 0 <= i < s.mirrors@.len() ==> crate::domain::ids::is_name((#[trigger] s.mirrors@[i]).name@)
}

/// True when a planned generation is within the tables' numbers.
pub open spec fn generation_fits(s: Store, bundle: Seq<CanonicalMirror>, name: Seq<char>) -> bool {
    match planned_change(s, bundle, name) {
        Some(planned) => planned.to_generation is Some ==> planned.to_generation->0 <= MAX_NUMBER,
        None => true,
    }
}

/// True when the next revision and every planned generation are within the tables' numbers.
pub open spec fn numbers_left(s: Store, bundle: Seq<CanonicalMirror>) -> bool {
    &&& planning::latest_revision(s.revisions@) < MAX_NUMBER
    &&& forall|name: Seq<char>| #[trigger] generation_fits(s, bundle, name)
}

/// Why the schedule of a changed mirror cannot be put in force.
#[verifier::opaque]
pub open spec fn effect_fault(s: Store, bundle: Seq<CanonicalMirror>, name: Seq<char>, now: i64) -> Option<Seq<char>> {
    match planned_change(s, bundle, name) {
        None => None,
        Some(planned) => if planned.kind is Remove {
            None
        } else {
            match schedule_effect(s, bundle[bundle_index(bundle, name)->0], planned.kind, now) {
                Ok(_) => None,
                Err(message) => Some(message),
            }
        },
    }
}

/// What applying a bundle comes to: the next revision with every change carried out, or the first
/// reason why nothing changes.
pub open spec fn apply_outcome(
    before: Store,
    after: Store,
    bundle: CanonicalBundle,
    base_revision: u64,
    actor: Seq<char>,
    now: i64,
    r: Result<ConfigPlan, StoreError>,
) -> bool {
    match r {
        Ok(plan) => {
            &&& names_valid(before)
            &&& base_revision == planning::latest_revision(before.revisions@)
            &&& numbers_left(before, bundle.mirrors@)
            &&& plan.base_revision == base_revision + 1
            &&& plan.bundle_hash == bundle.bundle_hash
            &&& planning::is_plan(before, bundle.mirrors@, plan.changes@)
            &&& revision_added(
                before.revisions@,
                after.revisions@,
                plan.base_revision,
                bundle.bundle_hash@,
                actor,
                now,
                plan.changes@,
            )
            &&& bundle_applied(before, after, bundle.mirrors@, plan.base_revision, now)
        },
        Err(error) => after == before && if !names_valid(before) {
            planning::names_bad_mirror(before.mirrors@, error)
        } else if base_revision != planning::latest_revision(before.revisions@) {
            error == (StoreError::RevisionConflict {
                current: planning::latest_revision(before.revisions@),
            })
        } else if !numbers_left(before, bundle.mirrors@) {
            error == StoreError::Database(error->Database_0) && error->Database_0@ == "integer out of range"@
        } else {
            error == StoreError::InvalidConfig(error->InvalidConfig_0) && exists|name: Seq<char>| #[trigger]
                first_fault(before, bundle.mirrors@, name, error->InvalidConfig_0@, now)
        },
    }
}

/// True of the first mirror, by name, whose schedule cannot be put in force.
pub open spec fn first_fault(
    s: Store,
    bundle: Seq<CanonicalMirror>,
    name: Seq<char>,
    message: Seq<char>,
    now: i64,
) -> bool {
    &&& effect_fault(s, bundle, name, now) == Some(message)
    &&& forall|other: Seq<char>|
        (#[trigger] effect_fault(s, bundle, other, now)) is Some ==> !text::lex_less(other, name)
}

/// True of the first change whose schedule cannot be put in force.
spec fn faults_at(
    s: Store,
    bundle: Seq<CanonicalMirror>,
    changes: Seq<ConfigChange>,
    message: Seq<char>,
    now: i64,
    k: int,
) -> bool {
    &&& 0 <= k < changes.len()
    &&& effect_fault(s, bundle, changes[k].mirror@, now) == Some(message)
    &&& forall|x: int| 0 <= x < k ==> effect_fault(s, bundle, (#[trigger] changes[x]).mirror@, now) is None
}

/// The effect of a change on its mirror's schedule.
spec fn effect_matches(s: Store, bundle: Seq<CanonicalMirror>, change: ConfigChange, effect: EffectView, now: i64) -> bool {
    if change.kind is Remove {
        effect == EffectView::Delete
    } else {
        schedule_effect(s, bundle[bundle_index(bundle, change.mirror@)->0], change.kind, now) == Ok::<
            EffectView,
            Seq<char>,
        >(effect)
    }
}

/// What a planned change says of the tables.
proof fn lemma_planned(s: Store, bundle: Seq<CanonicalMirror>, change: ConfigChange)
    requires
        s.wf(),
        planned_change(s, bundle, change.mirror@) == Some(change.planned()),
    ensures
        change.kind is Remove ==> mirror_row(s.mirrors@, change.mirror@) is Some && change.to_generation is None,
        !(change.kind is Remove) ==> {
            &&& bundle_index(bundle, change.mirror@) is Some
            &&& change.to_generation is Some
            &&& match mirror_row(s.mirrors@, change.mirror@) {
                Some(row) => change.to_generation->0 == row.current_generation + 1,
                None => change.to_generation->0 == 1,
            }
        },
{
    tables::lemma_mirror_index(s.mirrors@, change.mirror@);
    if let Some(i) = tables::mirror_index(s.mirrors@, change.mirror@) {
        assert(s.mirrors@[i].current_generation <= MAX_NUMBER);
    }
}

impl Store {
    fn effects_of(&self, bundle: &CanonicalBundle, changes: &Vec<ConfigChange>, now: i64) -> (r: Result<
        Vec<ScheduleEffect>,
        String,
    >)
        requires
            self.wf(),
            planning::changes_planned(*self, bundle.mirrors@, changes@),
        ensures
            r is Ok ==> r->Ok_0@.len() == changes@.len() && forall|k: int|
                0 <= k < changes@.len() ==> effect_matches(
                    *self,
                    bundle.mirrors@,
                    changes@[k],
                    (#[trigger] r->Ok_0@[k])@,
                    now,
                ),
            r is Err ==> exists|k: int| #[trigger]
                faults_at(*self, bundle.mirrors@, changes@, r->Err_0@, now, k),
    {
        let mut effects: Vec<ScheduleEffect> = Vec::new();
        let mut c: usize = 0;
        while c < changes.len()
            invariant
                self.wf(),
                planning::changes_planned(*self, bundle.mirrors@, changes@),
                c <= changes.len(),
                effects@.len() == c,
                forall|k: int|
                    0 <= k < c ==> effect_matches(
                        *self,
                        bundle.mirrors@,
                        changes@[k],
                        (#[trigger] effects@[k])@,
                        now,
                    ),
                forall|x: int|
                    0 <= x < c ==> effect_fault(
                        *self,
                        bundle.mirrors@,
                        (#[trigger] changes@[x]).mirror@,
                        now,
                    ) is None,
            decreases changes.len() - c,
        {
            match self.change_effect(bundle, &changes[c], now) {
                Err(message) => {
                    let fault: Result<Vec<ScheduleEffect>, String> = Err(message);
                    assert(faults_at(*self, bundle.mirrors@, changes@, fault->Err_0@, now, c as int));
                    return fault;
                },
                Ok(effect) => {
                    effects.push(effect);
                },
            }
            c = c + 1;
        }
        Ok(effects)
    }

    fn change_effect(&self, bundle: &CanonicalBundle, change: &ConfigChange, now: i64) -> (r: Result<
        ScheduleEffect,
        String,
    >)
        requires
            self.wf(),
            planned_change(*self, bundle.mirrors@, change.mirror@) == Some(change.planned()),
        ensures
            match r {
                Ok(effect) => effect_matches(*self, bundle.mirrors@, *change, effect@, now) && effect_fault(
                    *self,
                    bundle.mirrors@,
                    change.mirror@,
                    now,
                ) is None,
                Err(message) => effect_fault(*self, bundle.mirrors@, change.mirror@, now) == Some(message@),
            },
    {
        proof {
            lemma_planned(*self, bundle.mirrors@, *change);
            reveal(effect_fault);
        }
        if change.kind == ChangeKind::Remove {
            return Ok(ScheduleEffect::Delete);
        }
        let b: usize = planning::find_in_bundle(&bundle.mirrors, change.mirror.as_str()).unwrap();
        effect_of(self, &bundle.mirrors[b], change.kind, now)
    }

    fn carry_out(
        &mut self,
        bundle: &CanonicalBundle,
        changes: &Vec<ConfigChange>,
        effects: Vec<ScheduleEffect>,
        revision: u64,
        now: i64,
    )
        requires
            old(self).wf(),
            planning::is_plan(*old(self), bundle.mirrors@, changes@),
            numbers_left(*old(self), bundle.mirrors@),
            effects@.len() == changes@.len(),
            forall|k: int|
                0 <= k < changes@.len() ==> effect_matches(
                    *old(self),
                    bundle.mirrors@,
                    changes@[k],
                    (#[trigger] effects@[k])@,
                    now,
                ),
        ensures
            final(self).wf(),
            final(self).revisions == old(self).revisions,
            bundle_applied(*old(self), *final(self), bundle.mirrors@, revision, now),
    {
        let ghost start = *self;
        let ghost all = changes@;
        let ghost given = effects@;
        proof {
            assert forall|name: Seq<char>| !planning::changes_mirror(all.take(0), name) by {}
            assert forall|name: Seq<char>| #[trigger] name_carried(
                start,
                start,
                bundle.mirrors@,
                all.take(0),
                name,
                revision,
                now,
            ) by {}
        }
        let mut c: usize = 0;
        for effect in it: effects
            invariant
                it.seq() == given,
                c == it.index(),
                given.len() == all.len(),
                all == changes@,
                start.wf(),
                self.wf(),
                self.revisions == start.revisions,
                planning::is_plan(start, bundle.mirrors@, all),
                numbers_left(start, bundle.mirrors@),
                forall|k: int|
                    0 <= k < all.len() ==> effect_matches(
                        start,
                        bundle.mirrors@,
                        all[k],
                        (#[trigger] given[k])@,
                        now,
                    ),
                carried_out(start, *self, bundle.mirrors@, all.take(c as int), revision, now),
        {
            let ghost middle = *self;
            let change: &ConfigChange = &changes[c];
            proof {
                let name = change.mirror@;
                assert(effect == given[c as int]);
                assert(planned_change(start, bundle.mirrors@, all[c as int].mirror@) == Some(
                    all[c as int].planned(),
                ));
                lemma_planned(start, bundle.mirrors@, *change);
                assert(generation_fits(start, bundle.mirrors@, name));
                assert(!planning::changes_mirror(all.take(c as int), name)) by {
                    if planning::changes_mirror(all.take(c as int), name) {
                        let k = choose|k: int|
                            0 <= k < all.take(c as int).len() && (#[trigger] all.take(c as int)[k]).mirror@ == name;
                        text::lemma_lex_less_total(all[k].mirror@, all[c as int].mirror@);
                        assert(text::lex_less(all[k].mirror@, all[c as int].mirror@));
                    }
                }
                assert(name_carried(start, middle, bundle.mirrors@, all.take(c as int), name, revision, now));
            }
            let ghost shown = effect@;
            assert(c < changes.len());
            self.apply_change(bundle, change, effect, revision, now);
            proof {
                lemma_carried_further(
                    start,
                    middle,
                    *self,
                    bundle.mirrors@,
                    all,
                    c as int,
                    shown,
                    revision,
                    now,
                );
            }
            c = c + 1;
        }
        proof {
            assert(all.take(all.len() as int) == all);
            lemma_all_carried_out(start, *self, bundle.mirrors@, all, revision, now);
        }
    }

    fn generations_fit(&self, bundle: &CanonicalBundle, changes: &Vec<ConfigChange>) -> (r: bool)
        requires
            planning::is_plan(*self, bundle.mirrors@, changes@),
        ensures
            r == (forall|name: Seq<char>| #[trigger] generation_fits(*self, bundle.mirrors@, name)),
    {
        let mut c: usize = 0;
        while c < changes.len()
            invariant
                c <= changes.len(),
                planning::is_plan(*self, bundle.mirrors@, changes@),
                forall|k: int|
                    0 <= k < c ==> generation_fits(*self, bundle.mirrors@, (#[trigger] changes@[k]).mirror@),
            decreases changes.len() - c,
        {
            assert(planned_change(*self, bundle.mirrors@, changes@[c as int].mirror@) == Some(
                changes@[c as int].planned(),
            ));
            if let Some(generation) = changes[c].to_generation {
                if generation > MAX_NUMBER {
                    assert(!generation_fits(*self, bundle.mirrors@, changes@[c as int].mirror@));
                    return false;
                }
            }
            c = c + 1;
        }
        proof {
            assert forall|name: Seq<char>| #[trigger] generation_fits(*self, bundle.mirrors@, name) by {
                if planned_change(*self, bundle.mirrors@, name) is Some {
                    assert(planning::changes_mirror(changes@, name));
                    let k = choose|k: int| 0 <= k < changes@.len() && (#[trigger] changes@[k]).mirror@ == name;
                    assert(generation_fits(*self, bundle.mirrors@, changes@[k].mirror@));
                }
            }
        }
        true
    }

    /// Applies a bundle that was planned against the latest revision: the next revision is recorded and
    /// every change carried out, or nothing changes.
    pub fn apply(&mut self, bundle: &CanonicalBundle, base_revision: u64, actor: &str, now: i64) -> (r: Result<
        ConfigPlan,
        StoreError,
    >)
        requires
            old(self).wf(),
            in_order(bundle.mirrors@),
        ensures
            final(self).wf(),
            apply_outcome(*old(self), *final(self), *bundle, base_revision, actor@, now, r),
    {
        let ghost start = *self;
        let plan: ConfigPlan = match self.plan(bundle) {
            Err(error) => {
                return Err(error);
            },
            Ok(value) => value,
        };
        if plan.base_revision != base_revision {
            return Err(StoreError::RevisionConflict { current: plan.base_revision });
        }
        if plan.base_revision >= MAX_NUMBER || !self.generations_fit(bundle, &plan.changes) {
            return Err(StoreError::Database("integer out of range".to_owned()));
        }
        let effects: Vec<ScheduleEffect> = match self.effects_of(bundle, &plan.changes, now) {
            Err(message) => {
                proof {
                    lemma_first_fault(start, bundle.mirrors@, plan.changes@, message@, now);
                }
                let fault: Result<ConfigPlan, StoreError> = Err(StoreError::InvalidConfig(message));
                proof {
                    let name = choose|name: Seq<char>| #[trigger]
                        first_fault(start, bundle.mirrors@, name, message@, now);
                    assert(first_fault(start, bundle.mirrors@, name, fault->Err_0->InvalidConfig_0@, now));
                }
                return fault;
            },
            Ok(value) => value,
        };
        let revision: u64 = plan.base_revision + 1;
        self.carry_out(bundle, &plan.changes, effects, revision, now);
        let row: RevisionRow = RevisionRow {
            revision,
            bundle_hash: bundle.bundle_hash.clone(),
            applied_at_ms: now,
            actor: actor.to_owned(),
            summary: summaries_of(&plan.changes),
        };
        let ghost carried = *self;
        self.revisions.push(row);
        proof {
            assert(self.revisions@ == start.revisions@.push(row));
            lemma_applied_kept(start, carried, *self, bundle.mirrors@, revision, now);
        }
        Ok(ConfigPlan { base_revision: revision, bundle_hash: plan.bundle_hash, changes: plan.changes })
    }
}

/// The first change whose schedule cannot be put in force is the first by name.
proof fn lemma_first_fault(
    s: Store,
    bundle: Seq<CanonicalMirror>,
    changes: Seq<ConfigChange>,
    message: Seq<char>,
    now: i64,
)
    requires
        planning::is_plan(s, bundle, changes),
        exists|k: int| #[trigger] faults_at(s, bundle, changes, message, now, k),
    ensures
        exists|name: Seq<char>| first_fault(s, bundle, name, message, now),
{
    let k = choose|k: int| #[trigger] faults_at(s, bundle, changes, message, now, k);
    let name = changes[k].mirror@;
    assert forall|other: Seq<char>|
        (#[trigger] effect_fault(s, bundle, other, now)) is Some implies !text::lex_less(other, name) by {
        assert(planned_change(s, bundle, other) is Some) by {
            reveal(effect_fault);
        }
        assert(planning::changes_mirror(changes, other));
        let x = choose|x: int| 0 <= x < changes.len() && (#[trigger] changes[x]).mirror@ == other;
        assert(x >= k);
        text::lemma_lex_less_total(name, other);
        if x > k {
            assert(text::lex_less(changes[k].mirror@, changes[x].mirror@));
        }
    }
    assert(first_fault(s, bundle, name, message, now));
}

/// Recording the revision leaves what was applied.
proof fn lemma_applied_kept(
    start: Store,
    carried: Store,
    after: Store,
    bundle: Seq<CanonicalMirror>,
    revision: u64,
    now: i64,
)
    requires
        bundle_applied(start, carried, bundle, revision, now),
        only_schedules_change(Store { revisions: after.revisions, ..carried }, after),
        after.schedules == carried.schedules,
    ensures
        bundle_applied(start, after, bundle, revision, now),
{
    assert forall|name: Seq<char>| #[trigger] name_applied(start, after, bundle, name, revision, now) by {
        assert(name_applied(start, carried, bundle, name, revision, now));
        assert forall|g: u64| #[trigger] generation_applied(start, after, bundle, name, g, revision, now) by {
            assert(generation_applied(start, carried, bundle, name, g, revision, now));
        }
    }
    assert forall|j: int| 0 <= j < start.runs@.len() implies run_applied(
        start,
        j,
        #[trigger] after.runs@[j],
        bundle,
        now,
    ) by {
        assert(run_applied(start, j, carried.runs@[j], bundle, now));
    }
    assert forall|i: int| 0 <= i < start.attempts@.len() implies (#[trigger] after.attempts@[i]) == attempt_applied(
        start,
        i,
        bundle,
        now,
    ) by {
        assert(carried.attempts@[i] == attempt_applied(start, i, bundle, now));
    }
}

/// Applying what was applied changes nothing: a plan of the same bundle is empty.
pub proof fn law_applied_bundle_plans_nothing(
    before: Store,
    after: Store,
    bundle: Seq<CanonicalMirror>,
    revision: u64,
    now: i64,
    name: Seq<char>,
)
    requires
        before.wf(),
        after.wf(),
        bundle_applied(before, after, bundle, revision, now),
    ensures
        planned_change(after, bundle, name) is None,
{
    assert(name_applied(before, after, bundle, name, revision, now));
    tables::lemma_mirror_index(before.mirrors@, name);
    tables::lemma_mirror_index(after.mirrors@, name);
    planning::lemma_bundle_index(bundle, name);
    if let Some(i) = tables::mirror_index(after.mirrors@, name) {
        let row = after.mirrors@[i];
        let generation = row.current_generation;
        assert(wellformed::has_generation(after.generations@, name, generation));
        tables::lemma_generation_index(after.generations@, name, generation);
        assert(generation_applied(before, after, bundle, name, generation, revision, now));
        if let Some(k) = tables::mirror_index(before.mirrors@, name) {
            assert(wellformed::has_generation(
                before.generations@,
                name,
                before.mirrors@[k].current_generation,
            ));
            tables::lemma_generation_index(before.generations@, name, before.mirrors@[k].current_generation);
        }
    }
}

/// A bundle is applied whole or not at all, and only against the latest revision: what was planned
/// against another is refused and nothing changes, and once it is applied the revision has gone up
/// by one and a plan of the same bundle is empty.
pub proof fn law_bundles_are_applied_whole(
    before: Store,
    after: Store,
    bundle: CanonicalBundle,
    base_revision: u64,
    actor: Seq<char>,
    now: i64,
    r: Result<ConfigPlan, StoreError>,
    changes: Seq<ConfigChange>,
)
    requires
        before.wf(),
        after.wf(),
        apply_outcome(before, after, bundle, base_revision, actor, now, r),
        planning::is_plan(after, bundle.mirrors@, changes),
    ensures
        r is Err ==> after == before,
        names_valid(before) && base_revision != planning::latest_revision(before.revisions@) ==> r is Err && r->Err_0
            == (StoreError::RevisionConflict { current: planning::latest_revision(before.revisions@) }),
        r is Ok ==> {
            &&& r->Ok_0.base_revision == planning::latest_revision(after.revisions@)
            &&& planning::latest_revision(after.revisions@) == planning::latest_revision(before.revisions@) + 1
            &&& changes.len() == 0
        },
{
    if r is Ok {
        let plan = r->Ok_0;
        assert(after.revisions@.drop_last() == before.revisions@);
        if changes.len() > 0 {
            let name = changes[0].mirror@;
            assert(planned_change(after, bundle.mirrors@, name) == Some(changes[0].planned()));
            law_applied_bundle_plans_nothing(before, after, bundle.mirrors@, plan.base_revision, now, name);
        }
    }
}

/// A mirror's generation only ever grows, and every change but a removal makes the next one.
pub proof fn law_generations_grow(
    before: Store,
    after: Store,
    bundle: Seq<CanonicalMirror>,
    revision: u64,
    now: i64,
    name: Seq<char>,
)
    requires
        before.wf(),
        bundle_applied(before, after, bundle, revision, now),
        mirror_row(before.mirrors@, name) is Some,
    ensures
        mirror_row(after.mirrors@, name) is Some,
        mirror_row(after.mirrors@, name)->0.current_generation == mirror_row(
            before.mirrors@,
            name,
        )->0.current_generation + (match planned_change(before, bundle, name) {
            Some(planned) => if planned.kind is Remove { 0int } else { 1 },
            None => 0,
        }),
{
    assert(name_applied(before, after, bundle, name, revision, now));
    tables::lemma_mirror_index(before.mirrors@, name);
    let i = tables::mirror_index(before.mirrors@, name)->0;
    assert(before.mirrors@[i].current_generation <= MAX_NUMBER);
}

/// What has been handed out is left alone: a pending run with an attempt that was handed out, a run
/// whose attempt is under way and a run that has ended stay as they are, whatever is applied.
pub proof fn law_dispatched_runs_survive(
    before: Store,
    after: Store,
    bundle: Seq<CanonicalMirror>,
    revision: u64,
    now: i64,
    j: int,
)
    requires
        bundle_applied(before, after, bundle, revision, now),
        0 <= j < before.runs@.len(),
        ({
            let run = before.runs@[j].record;
            ||| run.state is Pending && retire::dispatched_once(before.attempts@, run.id@)
            ||| run.state is Running && run.retry_due_at_ms is None
            ||| run.state.terminal()
        }),
    ensures
        after.runs@[j] == before.runs@[j],
{
    assert(run_applied(before, j, after.runs@[j], bundle, now));
}

/// A removed mirror keeps its history and loses its schedule.
pub proof fn law_removal_keeps_history(
    before: Store,
    after: Store,
    bundle: Seq<CanonicalMirror>,
    revision: u64,
    now: i64,
    name: Seq<char>,
    generation: u64,
)
    requires
        bundle_applied(before, after, bundle, revision, now),
        planned_change(before, bundle, name) is Some,
        planned_change(before, bundle, name)->0.kind is Remove,
    ensures
        generation_row(after.generations@, name, generation) == generation_row(
            before.generations@,
            name,
            generation,
        ),
        schedule_row(after.schedules@, name) is None,
        after.runs@.len() == before.runs@.len(),
        after.attempts@.len() == before.attempts@.len(),
{
    assert(name_applied(before, after, bundle, name, revision, now));
    assert(generation_applied(before, after, bundle, name, generation, revision, now));
}

/// After a bundle is applied, every enabled mirror that it changes and that has a schedule has the
/// schedule of its document in force: the row holds that schedule's fingerprint, and unless the mirror
/// had a row with that very fingerprint before, the schedule is due next after the moment at which the
/// bundle was applied and nothing waits.
pub proof fn law_applied_schedules_are_those_of_the_documents(
    before: Store,
    after: Store,
    bundle: Seq<CanonicalMirror>,
    revision: u64,
    now: i64,
    b: int,
)
    requires
        before.wf(),
        after.wf(),
        in_order(bundle),
        bundle_applied(before, after, bundle, revision, now),
        0 <= b < bundle.len(),
        planned_change(before, bundle, bundle[b].name()) is Some,
        bundle[b].document.mirror.enabled,
        bundle[b].document.schedule is Some,
    ensures
        ({
            let name = bundle[b].name();
            let config = bundle[b].document.schedule->0;
            let hash = schedule::fingerprint(encode_utf8(config.document()));
            exists|k: int|
                0 <= k < after.schedules@.len() && (#[trigger] after.schedules@[k]).mirror_name@ == name
                    && after.schedules@[k].schedule_hash is Some && after.schedules@[k].schedule_hash->0@ == hash && ((exists|
                    o: int,
                |
                    0 <= o < before.schedules@.len() && (#[trigger] before.schedules@[o]).mirror_name@ == name
                        && before.schedules@[o].schedule_hash is Some && before.schedules@[o].schedule_hash->0@ == hash) || (
                config.next_after(now) is Ok && after.schedules@[k].runtime.next_due_at_ms == Some(
                    config.next_after(now)->Ok_0,
                ) && after.schedules@[k].runtime.last_evaluated_at_ms == Some(now)
                    && !after.schedules@[k].runtime.catch_up_pending
                    && after.schedules@[k].runtime.catch_up_since_ms is None))
        }),
{
    let name = bundle[b].name();
    planning::lemma_own_place(bundle, b);
    assert(name_applied(before, after, bundle, name, revision, now));
    lemma_kind_of_bundled(before, bundle, b);
    tables::lemma_schedule_index(before.schedules@, name);
    tables::lemma_schedule_index(after.schedules@, name);
    let k = tables::schedule_index(after.schedules@, name)->0;
    assert(after.schedules@[k].mirror_name@ == name);
    if let Some(o) = tables::schedule_index(before.schedules@, name) {
        assert(before.schedules@[o].mirror_name@ == name);
    }
}

/// What a bundle has is not removed.
proof fn lemma_kind_of_bundled(s: Store, bundle: Seq<CanonicalMirror>, b: int)
    requires
        in_order(bundle),
        0 <= b < bundle.len(),
        planned_change(s, bundle, bundle[b].name()) is Some,
    ensures
        !(planned_change(s, bundle, bundle[b].name())->0.kind is Remove),
{
    planning::lemma_own_place(bundle, b);
}

/// A schedule that means the same, of a mirror that was and stays in force on its node, goes on as it
/// stood: when it is next due and since when it waits are not touched by other changes of the mirror.
pub proof fn law_schedules_that_mean_the_same_go_on(
    before: Store,
    after: Store,
    bundle: Seq<CanonicalMirror>,
    revision: u64,
    now: i64,
    b: int,
    m: int,
    o: int,
)
    requires
        before.wf(),
        after.wf(),
        in_order(bundle),
        bundle_applied(before, after, bundle, revision, now),
        0 <= b < bundle.len(),
        bundle[b].document.mirror.enabled,
        bundle[b].document.schedule is Some,
        0 <= m < before.mirrors@.len(),
        before.mirrors@[m].name@ == bundle[b].name(),
        before.mirrors@[m].managed,
        before.mirrors@[m].enabled,
        before.mirrors@[m].owner_node@ == bundle[b].owner_node@,
        0 <= o < before.schedules@.len(),
        before.schedules@[o].mirror_name@ == bundle[b].name(),
        before.schedules@[o].schedule_hash is Some,
        before.schedules@[o].schedule_hash->0@ == schedule::fingerprint(
            encode_utf8((bundle[b].document.schedule->0).document()),
        ),
    ensures
        exists|k: int| 0 <= k < after.schedules@.len() && #[trigger] after.schedules@[k] == before.schedules@[o],
{
    let name = bundle[b].name();
    planning::lemma_own_place(bundle, b);
    lookup::lemma_own_mirror(before.mirrors@, m);
    lookup::lemma_own_schedule(before.schedules@, o);
    assert(name_applied(before, after, bundle, name, revision, now));
    tables::lemma_schedule_index(after.schedules@, name);
    let k = tables::schedule_index(after.schedules@, name)->0;
    assert(after.schedules@[k] == before.schedules@[o]);
}

/// A mirror that moves, or was out of force, begins its schedule anew even where it means the same.
pub proof fn law_schedules_of_new_places_begin_anew(
    before: Store,
    after: Store,
    bundle: Seq<CanonicalMirror>,
    revision: u64,
    now: i64,
    b: int,
    k: int,
)
    requires
        before.wf(),
        after.wf(),
        in_order(bundle),
        bundle_applied(before, after, bundle, revision, now),
        0 <= b < bundle.len(),
        planned_change(before, bundle, bundle[b].name()) is Some,
        bundle[b].document.mirror.enabled,
        bundle[b].document.schedule is Some,
        forall|m: int|
            0 <= m < before.mirrors@.len() && (#[trigger] before.mirrors@[m]).name@ == bundle[b].name()
                ==> !before.mirrors@[m].managed || !before.mirrors@[m].enabled || before.mirrors@[m].owner_node@
                != bundle[b].owner_node@,
        0 <= k < after.schedules@.len(),
        after.schedules@[k].mirror_name@ == bundle[b].name(),
    ensures
        (bundle[b].document.schedule->0).next_after(now) is Ok,
        after.schedules@[k].runtime.next_due_at_ms == Some(
            (bundle[b].document.schedule->0).next_after(now)->Ok_0,
        ),
        after.schedules@[k].runtime.catch_up_pending == false,
        after.schedules@[k].runtime.catch_up_since_ms is None,
{
    let name = bundle[b].name();
    planning::lemma_own_place(bundle, b);
    lemma_kind_of_bundled(before, bundle, b);
    tables::lemma_mirror_index(before.mirrors@, name);
    lookup::lemma_own_schedule(after.schedules@, k);
    assert(name_applied(before, after, bundle, name, revision, now));
}

/// A mirror that has no schedule, is disabled or has left the bundle has no row of a schedule once it is
/// changed; a mirror that is not changed keeps the one it had.
pub proof fn law_mirrors_without_schedules_wait_for_nothing(
    before: Store,
    after: Store,
    bundle: Seq<CanonicalMirror>,
    revision: u64,
    now: i64,
    name: Seq<char>,
    k: int,
)
    requires
        before.wf(),
        after.wf(),
        in_order(bundle),
        bundle_applied(before, after, bundle, revision, now),
        0 <= k < after.schedules@.len(),
        after.schedules@[k].mirror_name@ == name,
    ensures
        planned_change(before, bundle, name) is Some ==> exists|b: int|
            0 <= b < bundle.len() && (#[trigger] bundle[b]).name() == name && bundle[b].document.mirror.enabled
                && bundle[b].document.schedule is Some,
        planned_change(before, bundle, name) is None ==> exists|o: int|
            0 <= o < before.schedules@.len() && #[trigger] before.schedules@[o] == after.schedules@[k],
{
    lookup::lemma_own_schedule(after.schedules@, k);
    assert(name_applied(before, after, bundle, name, revision, now));
    planning::lemma_bundle_index(bundle, name);
    tables::lemma_schedule_index(before.schedules@, name);
    if planned_change(before, bundle, name) is Some {
        let b = bundle_index(bundle, name)->0;
        tables::lemma_mirror_index(before.mirrors@, name);
        assert(bundle[b].name() == name);
    } else {
        let o = tables::schedule_index(before.schedules@, name)->0;
        assert(before.schedules@[o] == after.schedules@[k]);
    }
}

/// A mirror that is changed and not removed is in force as its document says, on the node of the
/// bundle, and its new generation holds exactly what the bundle holds of it.
pub proof fn law_changed_mirrors_are_as_the_bundle_has_them(
    before: Store,
    after: Store,
    bundle: Seq<CanonicalMirror>,
    revision: u64,
    now: i64,
    b: int,
)
    requires
        before.wf(),
        after.wf(),
        in_order(bundle),
        bundle_applied(before, after, bundle, revision, now),
        0 <= b < bundle.len(),
        planned_change(before, bundle, bundle[b].name()) is Some,
        planned_change(before, bundle, bundle[b].name())->0.to_generation is Some,
    ensures
        exists|m: int, g: int|
            0 <= m < after.mirrors@.len() && 0 <= g < after.generations@.len() && {
                let row = #[trigger] after.mirrors@[m];
                let generation = #[trigger] after.generations@[g];
                &&& row.name@ == bundle[b].name()
                &&& row.managed
                &&& row.enabled == bundle[b].document.mirror.enabled
                &&& row.owner_node@ == bundle[b].owner_node@
                &&& row.removed_at_ms is None
                &&& generation.mirror_name@ == bundle[b].name()
                &&& generation.generation == row.current_generation
                &&& generation.config_revision == revision
                &&& generation.owner_node@ == bundle[b].owner_node@
                &&& generation.config_hash == bundle[b].config_hash
                &&& generation.config_toml == bundle[b].canonical_toml
                &&& generation.publication == bundle[b].document.mode()
                &&& generation.created_at_ms == now
            },
{
    let name = bundle[b].name();
    let planned = planned_change(before, bundle, name)->0;
    planning::lemma_own_place(bundle, b);
    lemma_kind_of_bundled(before, bundle, b);
    assert(name_applied(before, after, bundle, name, revision, now));
    assert(generation_applied(before, after, bundle, name, planned.to_generation->0, revision, now));
    tables::lemma_mirror_index(after.mirrors@, name);
    tables::lemma_generation_index(after.generations@, name, planned.to_generation->0);
    let m = tables::mirror_index(after.mirrors@, name)->0;
    let g = tables::generation_index(after.generations@, name, planned.to_generation->0)->0;
    assert(after.mirrors@[m].name@ == name);
    assert(after.generations@[g].mirror_name@ == name);
}

/// A mirror that is not changed stays as it is, and one that leaves keeps its row, marked as gone since
/// the bundle was applied.
pub proof fn law_other_mirrors_stay(
    before: Store,
    after: Store,
    bundle: Seq<CanonicalMirror>,
    revision: u64,
    now: i64,
    m: int,
)
    requires
        before.wf(),
        bundle_applied(before, after, bundle, revision, now),
        0 <= m < before.mirrors@.len(),
    ensures
        ({
            let row = before.mirrors@[m];
            let planned = planned_change(before, bundle, row.name@);
            &&& planned is None ==> exists|x: int| 0 <= x < after.mirrors@.len() && #[trigger] after.mirrors@[x] == row
            &&& planned is Some && planned->0.to_generation is None ==> exists|x: int|
                0 <= x < after.mirrors@.len() && #[trigger] after.mirrors@[x] == (MirrorRow {
                    managed: false,
                    removed_at_ms: Some(now),
                    ..row
                })
        }),
{
    let row = before.mirrors@[m];
    lookup::lemma_own_mirror(before.mirrors@, m);
    assert(name_applied(before, after, bundle, row.name@, revision, now));
    tables::lemma_mirror_index(after.mirrors@, row.name@);
    assert(mirror_row(after.mirrors@, row.name@) is Some);
    let x = tables::mirror_index(after.mirrors@, row.name@)->0;
    assert(after.mirrors@[x] == mirror_row(after.mirrors@, row.name@)->0);
}

/// Pending work of a mirror that leaves or is disabled is withdrawn where nothing of it was handed out;
/// a run that waits for its retry ends with its last attempt wherever its mirror leaves, is disabled or
/// moves; every other run stays as it is.
pub proof fn law_pending_work_goes_with_its_mirror(
    before: Store,
    after: Store,
    bundle: Seq<CanonicalMirror>,
    revision: u64,
    now: i64,
    j: int,
    m: int,
)
    requires
        before.wf(),
        in_order(bundle),
        bundle_applied(before, after, bundle, revision, now),
        0 <= j < before.runs@.len(),
        0 <= m < before.mirrors@.len(),
        before.mirrors@[m].name@ == before.runs@[j].record.mirror_name@,
    ensures
        ({
            let run = before.runs@[j].record;
            let is = after.runs@[j].record;
            let row = before.mirrors@[m];
            let leaves = row.managed && forall|b: int| 0 <= b < bundle.len() ==> (#[trigger] bundle[b]).name() != row.name@;
            let disabled = planned_change(before, bundle, row.name@) is Some && exists|b: int|
                0 <= b < bundle.len() && (#[trigger] bundle[b]).name() == row.name@
                    && !bundle[b].document.mirror.enabled;
            let moves = row.managed && exists|b: int|
                0 <= b < bundle.len() && (#[trigger] bundle[b]).name() == row.name@ && bundle[b].owner_node@
                    != row.owner_node@;
            let untouched = forall|a: int|
                0 <= a < before.attempts@.len() && (#[trigger] before.attempts@[a]).record.run_id@ == run.id@
                    ==> before.attempts@[a].dispatch_count == 0;
            &&& (leaves || disabled) && run.state == RunState::Pending && untouched ==> is.state == RunState::Cancelled
                && is.finished_at_ms == Some(now) && is.failure_kind is Some && is.failure_kind->0@
                == "configuration_removed"@
            &&& !leaves && !disabled && run.state == RunState::Pending ==> after.runs@[j] == before.runs@[j]
            &&& run.state == RunState::Pending && !untouched ==> after.runs@[j] == before.runs@[j]
            &&& run.state == RunState::Running && run.retry_due_at_ms is None ==> after.runs@[j] == before.runs@[j]
            &&& !leaves && !disabled && !moves ==> after.runs@[j] == before.runs@[j]
            &&& run.state != RunState::Pending && run.state != RunState::Running ==> after.runs@[j] == before.runs@[j]
            &&& (leaves || disabled || moves) && run.state == RunState::Running && run.retry_due_at_ms is Some
                ==> forall|a: int|
                0 <= a < before.attempts@.len() && (#[trigger] before.attempts@[a]).record.run_id@ == run.id@
                    && before.attempts@[a].record.attempt_no == before.runs@[j].attempt_count ==> {
                    let last = before.attempts@[a].record;
                    &&& is.state == (if last.state == AttemptState::TimedOut {
                        RunState::TimedOut
                    } else {
                        RunState::Failed
                    })
                    &&& is.finished_at_ms == Some(now)
                    &&& is.retry_due_at_ms is None
                    &&& is.final_exit_code == last.exit_code
                    &&& is.failure_kind == last.failure_kind
                    &&& is.failure_message == last.failure_message
                }
            &&& is.id == run.id
            &&& is.mirror_name == run.mirror_name
            &&& is.created_at_ms == run.created_at_ms
        }),
{
    let run = before.runs@[j].record;
    let row = before.mirrors@[m];
    lookup::lemma_own_mirror(before.mirrors@, m);
    planning::lemma_bundle_index(bundle, row.name@);
    assert(run_applied(before, j, after.runs@[j], bundle, now));
    let place = bundle_index(bundle, row.name@);
    if let Some(p) = place {
        assert(bundle[p].name() == row.name@);
        assert forall|b: int| 0 <= b < bundle.len() && (#[trigger] bundle[b]).name() == row.name@ implies b == p by {
            planning::lemma_own_place(bundle, b);
        }
    }
    let untouched = forall|a: int|
        0 <= a < before.attempts@.len() && (#[trigger] before.attempts@[a]).record.run_id@ == run.id@
            ==> before.attempts@[a].dispatch_count == 0;
    assert(untouched <==> !retire::dispatched_once(before.attempts@, run.id@));
    assert forall|a: int|
        0 <= a < before.attempts@.len() && (#[trigger] before.attempts@[a]).record.run_id@ == run.id@
            && before.attempts@[a].record.attempt_no == before.runs@[j].attempt_count implies tables::attempt_index(
        before.attempts@,
        run.id@,
        before.runs@[j].attempt_count,
    ) == Some(a) by {
        lookup::lemma_own_attempt(before.attempts@, a);
    }
}

/// An applied bundle is recorded as the next revision, with its hash, who applied it and when, and one
/// line for each change.
pub proof fn law_applied_bundles_are_recorded(
    before: Store,
    after: Store,
    bundle: CanonicalBundle,
    base_revision: u64,
    actor: Seq<char>,
    now: i64,
    plan: ConfigPlan,
)
    requires
        apply_outcome(before, after, bundle, base_revision, actor, now, Ok(plan)),
    ensures
        after.revisions@.drop_last() == before.revisions@,
        after.revisions@.last().revision == base_revision + 1,
        after.revisions@.last().bundle_hash@ == bundle.bundle_hash@,
        after.revisions@.last().actor@ == actor,
        after.revisions@.last().applied_at_ms == now,
        after.revisions@.last().summary@.len() == plan.changes@.len(),
        plan.base_revision == base_revision + 1,
        plan.bundle_hash == bundle.bundle_hash,
        after.nodes == before.nodes,
        after.credentials == before.credentials,
        after.logs == before.logs,
{
    let row = after.revisions@.last();
    assert(after.revisions@.drop_last() == before.revisions@);
    assert(text::views(row.summary@).len() == row.summary@.len());
}

/// A bundle is refused for a schedule only where an enabled mirror of it has one that has no next
/// moment, and the message is that schedule's.
pub proof fn law_bundles_are_refused_for_their_own_schedules(
    before: Store,
    after: Store,
    bundle: CanonicalBundle,
    base_revision: u64,
    actor: Seq<char>,
    now: i64,
    message: String,
)
    requires
        in_order(bundle.mirrors@),
        apply_outcome(before, after, bundle, base_revision, actor, now, Err(StoreError::InvalidConfig(message))),
        names_valid(before),
    ensures
        after == before,
        base_revision == planning::latest_revision(before.revisions@),
        exists|b: int|
            0 <= b < bundle.mirrors@.len() && {
                let next = #[trigger] bundle.mirrors@[b];
                next.document.mirror.enabled && next.document.schedule is Some && (next.document.schedule->0).next_after(now)
                    == Err::<i64, Seq<char>>(message@)
            },
{
    let name = choose|name: Seq<char>| #[trigger] first_fault(before, bundle.mirrors@, name, message@, now);
    assert(effect_fault(before, bundle.mirrors@, name, now) == Some(message@));
    reveal(effect_fault);
    planning::lemma_bundle_index(bundle.mirrors@, name);
    tables::lemma_mirror_index(before.mirrors@, name);
    let b = bundle_index(bundle.mirrors@, name)->0;
    assert(bundle.mirrors@[b].name() == name);
}

} // verus!
