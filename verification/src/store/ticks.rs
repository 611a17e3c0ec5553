//! Looking at the schedules that are due.
use super::keys;
use super::ranked;
use super::ranked::Ranked;
use super::tables;
use super::tables::has_active_run;
use super::tables::GenerationRow;
use super::tables::MirrorRow;
use super::tables::ScheduleRow;
use super::tables::Store;
use super::tables::StoreError;
use super::wellformed;
use crate::domain::schedule::ScheduleRuntime;
use crate::domain::state::RunState;
use crate::text;
use vstd::prelude::*;

verus! {

/// What is looked at when a schedule is due.
#[derive(Debug, PartialEq, Eq)]
pub struct ScheduleTickSource {
    pub mirror_name: String,
    pub config_toml: String,
    pub runtime: ScheduleRuntime,
    pub has_active_run: bool,
}

/// The mirror of schedule `k`.
pub open spec fn ticking_mirror(s: Store, k: int) -> MirrorRow {
    s.mirrors@[tables::mirror_index(s.mirrors@, s.schedules@[k].mirror_name@)->0]
}

/// True when schedule `k` is due at a moment and its mirror is managed and enabled.
pub open spec fn is_due(s: Store, k: int, now: i64) -> bool {
    &&& 0 <= k < s.schedules@.len()
    &&& ticking_mirror(s, k).managed
    &&& ticking_mirror(s, k).enabled
    &&& s.schedules@[k].runtime.next_due_at_ms is Some
    &&& s.schedules@[k].runtime.next_due_at_ms->0 <= now
}

/// What is looked at for schedule `k`.
pub open spec fn tick_source(s: Store, k: int) -> ScheduleTickSource {
    let mirror = ticking_mirror(s, k);
    ScheduleTickSource {
        mirror_name: mirror.name,
        config_toml: s.generations@[tables::generation_index(
            s.generations@,
            mirror.name@,
            mirror.current_generation,
        )->0].config_toml,
        runtime: s.schedules@[k].runtime,
        has_active_run: has_active_run(s.runs@, mirror.name@),
    }
}

/// True when schedule `a` is looked at before schedule `b`: due earlier, or at the same moment and
/// first by name.
pub open spec fn looked_at_before(s: Store, a: int, b: int) -> bool {
    let at_a = s.schedules@[a].runtime.next_due_at_ms->0;
    let at_b = s.schedules@[b].runtime.next_due_at_ms->0;
    at_a < at_b || (at_a == at_b && text::lex_less(s.schedules@[a].mirror_name@, s.schedules@[b].mirror_name@))
}

/// The places of the schedules that are due, in the order in which they are looked at.
pub open spec fn is_due_order(s: Store, now: i64, order: Seq<int>) -> bool {
    &&& order.no_duplicates()
    &&& forall|m: int| 0 <= m < order.len() ==> is_due(s, #[trigger] order[m], now)
    &&& forall|k: int| is_due(s, k, now) ==> #[trigger] order.contains(k)
    &&& forall|m: int, n: int|
        0 <= m < n < order.len() ==> !looked_at_before(s, #[trigger] order[n], #[trigger] order[m])
}

/// True when the schedules that were due hold what looking at them found, and all others are as
/// they were.
pub open spec fn ticked<T, F: Fn(&ScheduleTickSource) -> Result<(ScheduleRuntime, T), StoreError>>(
    before: Store,
    after: Store,
    order: Seq<int>,
    found: Seq<T>,
    now: i64,
    evaluate: F,
) -> bool {
    &&& is_due_order(before, now, order)
    &&& found.len() == order.len()
    &&& after == (Store { schedules: after.schedules, ..before })
    &&& after.schedules@.len() == before.schedules@.len()
    &&& forall|k: int|
        0 <= k < before.schedules@.len() ==> (#[trigger] after.schedules@[k]) == (if is_due(before, k, now) {
            ScheduleRow { runtime: after.schedules@[k].runtime, ..before.schedules@[k] }
        } else {
            before.schedules@[k]
        })
    &&& forall|m: int|
        0 <= m < order.len() ==> call_ensures(
            evaluate,
            (&tick_source(before, order[m]),),
            Ok((after.schedules@[#[trigger] order[m]].runtime, found[m])),
        )
}

/// True when looking at schedule `order[m]` failed, after all before it had succeeded.
pub open spec fn tick_failed<T, F: Fn(&ScheduleTickSource) -> Result<(ScheduleRuntime, T), StoreError>>(
    before: Store,
    order: Seq<int>,
    m: int,
    error: StoreError,
    now: i64,
    evaluate: F,
) -> bool {
    &&& is_due_order(before, now, order)
    &&& 0 <= m < order.len()
    &&& call_ensures(evaluate, (&tick_source(before, order[m]),), Err::<(ScheduleRuntime, T), StoreError>(error))
    &&& forall|l: int|
        0 <= l < m ==> exists|outcome: (ScheduleRuntime, T)|
            call_ensures(evaluate, (&tick_source(before, #[trigger] order[l]),), Ok(outcome))
}

/// A schedule that is due.
struct DueSchedule {
    at_ms: i64,
    name: String,
    place: usize,
}

impl Ranked for DueSchedule {
    closed spec fn precedes(&self, other: &Self) -> bool {
        self.at_ms < other.at_ms || (self.at_ms == other.at_ms && text::lex_less(self.name@, other.name@))
    }

    fn is_before(&self, other: &Self) -> (r: bool) {
        self.at_ms < other.at_ms || (self.at_ms == other.at_ms && text::less(self.name.as_str(), other.name.as_str()))
    }

    proof fn lemma_order(a: &Self, b: &Self, c: &Self) {
        text::lemma_lex_less_total(a.name@, b.name@);
        if text::lex_less(a.name@, b.name@) && text::lex_less(b.name@, c.name@) {
            text::lemma_lex_less_transitive(a.name@, b.name@, c.name@);
        }
    }
}

spec fn describes(s: Store, due: DueSchedule) -> bool {
    &&& (due.place as int) < s.schedules@.len()
    &&& s.schedules@[due.place as int].runtime.next_due_at_ms == Some(due.at_ms)
    &&& s.schedules@[due.place as int].mirror_name == due.name
}

impl Store {
    fn schedule_is_due(&self, k: usize, now: i64) -> (r: bool)
        requires
            self.wf(),
            k < self.schedules@.len(),
        ensures
            r == is_due(*self, k as int, now),
    {
        proof {
            assert(wellformed::has_mirror(self.mirrors@, self.schedules@[k as int].mirror_name@));
            tables::lemma_mirror_index(self.mirrors@, self.schedules@[k as int].mirror_name@);
        }
        let due: bool = match self.schedules[k].runtime.next_due_at_ms {
            Some(at) => at <= now,
            None => false,
        };
        match tables::find_mirror(&self.mirrors, self.schedules[k].mirror_name.as_str()) {
            Some(m) => due && self.mirrors[m].managed && self.mirrors[m].enabled,
            None => false,
        }
    }

    fn due_order(&self, now: i64) -> (r: Vec<usize>)
        requires
            self.wf(),
        ensures
            is_due_order(*self, now, r@.map_values(|place: usize| place as int)),
    {
        let mut all: Vec<DueSchedule> = Vec::new();
        let mut k: usize = 0;
        while k < self.schedules.len()
            invariant
                self.wf(),
                k <= self.schedules.len(),
                forall|x: int, y: int| 0 <= x < y < all@.len() ==> (#[trigger] all@[x]).place < (#[trigger] all@[y]).place,
                forall|x: int|
                    0 <= x < all@.len() ==> describes(*self, #[trigger] all@[x]) && all@[x].place < k && is_due(
                        *self,
                        all@[x].place as int,
                        now,
                    ),
                forall|p: int|
                    0 <= p < k && #[trigger] is_due(*self, p, now) ==> exists|x: int|
                        0 <= x < all@.len() && (#[trigger] all@[x]).place == p,
            decreases self.schedules.len() - k,
        {
            if self.schedule_is_due(k, now) {
                if let Some(at_ms) = self.schedules[k].runtime.next_due_at_ms {
                    let ghost before = all@;
                    all.push(DueSchedule { at_ms, name: self.schedules[k].mirror_name.clone(), place: k });
                    assert(all@[all@.len() - 1].place == k);
                    assert forall|p: int| 0 <= p < k + 1 && #[trigger] is_due(*self, p, now) implies exists|x: int|
                        0 <= x < all@.len() && (#[trigger] all@[x]).place == p by {
                        if p < k {
                            let x = choose|x: int| 0 <= x < before.len() && (#[trigger] before[x]).place == p;
                            assert(all@[x].place == p);
                        }
                    }
                }
            }
            k = k + 1;
        }
        let ghost listed = all@;
        let sorted: Vec<DueSchedule> = ranked::ranked(all);
        proof {
            assert(listed.no_duplicates());
            ranked::lemma_same_values(listed, sorted@);
        }
        let mut out: Vec<usize> = Vec::new();
        let mut i: usize = 0;
        while i < sorted.len()
            invariant
                i <= sorted.len(),
                out@.len() == i,
                forall|x: int| 0 <= x < i ==> (#[trigger] out@[x]) == sorted@[x].place,
            decreases sorted.len() - i,
        {
            out.push(sorted[i].place);
            i = i + 1;
        }
        proof {
            let order = out@.map_values(|place: usize| place as int);
            assert forall|x: int| 0 <= x < sorted@.len() implies describes(*self, #[trigger] sorted@[x]) && is_due(
                *self,
                sorted@[x].place as int,
                now,
            ) by {
                assert(sorted@.contains(sorted@[x]));
                assert(listed.contains(sorted@[x]));
            }
            assert forall|m: int, n: int| 0 <= m < n < order.len() implies !looked_at_before(
                *self,
                #[trigger] order[n],
                #[trigger] order[m],
            ) by {
                assert(!sorted@[n].precedes(&sorted@[m]));
                assert(describes(*self, sorted@[m]) && describes(*self, sorted@[n]));
            }
            assert forall|m: int, n: int| 0 <= m < order.len() && 0 <= n < order.len() && m != n implies order[m]
                != order[n] by {
                assert(listed.contains(sorted@[m]) && listed.contains(sorted@[n])) by {
                    assert(sorted@.contains(sorted@[m]) && sorted@.contains(sorted@[n]));
                }
                let x = choose|x: int| 0 <= x < listed.len() && listed[x] == sorted@[m];
                let y = choose|y: int| 0 <= y < listed.len() && listed[y] == sorted@[n];
                assert(sorted@[m] != sorted@[n]);
                assert(x != y);
                if x < y {
                    assert(listed[x].place < listed[y].place);
                } else {
                    assert(listed[y].place < listed[x].place);
                }
            }
            assert forall|p: int| is_due(*self, p, now) implies #[trigger] order.contains(p) by {
                let x = choose|x: int| 0 <= x < listed.len() && (#[trigger] listed[x]).place == p;
                assert(listed.contains(listed[x]));
                assert(sorted@.contains(listed[x]));
                let y = choose|y: int| 0 <= y < sorted@.len() && sorted@[y] == listed[x];
                assert(order[y] == p);
            }
        }
        out
    }

    fn source_of(&self, k: usize) -> (r: ScheduleTickSource)
        requires
            self.wf(),
            k < self.schedules@.len(),
        ensures
            r == tick_source(*self, k as int),
    {
        let ghost name = self.schedules@[k as int].mirror_name@;
        proof {
            assert(wellformed::has_mirror(self.mirrors@, name));
            tables::lemma_mirror_index(self.mirrors@, name);
        }
        let m: usize = match tables::find_mirror(&self.mirrors, self.schedules[k].mirror_name.as_str()) {
            Some(m) => m,
            None => 0,
        };
        let mirror: &MirrorRow = &self.mirrors[m];
        proof {
            assert(wellformed::has_generation(self.generations@, mirror.name@, mirror.current_generation));
            tables::lemma_generation_index(self.generations@, mirror.name@, mirror.current_generation);
        }
        let g: usize = match tables::find_generation(
            &self.generations,
            mirror.name.as_str(),
            mirror.current_generation,
        ) {
            Some(g) => g,
            None => 0,
        };
        let generation: &GenerationRow = &self.generations[g];
        ScheduleTickSource {
            mirror_name: mirror.name.clone(),
            config_toml: generation.config_toml.clone(),
            runtime: self.schedules[k].runtime,
            has_active_run: tables::find_active_run(&self.runs, mirror.name.as_str()).is_some(),
        }
    }

    /// Looks at every schedule that is due, the earliest first. When looking at one fails, nothing
    /// changes. Otherwise each comes to what looking at it found, and what else was found is
    /// returned in the same order.
    pub fn evaluate_due_schedules<T, F: Fn(&ScheduleTickSource) -> Result<(ScheduleRuntime, T), StoreError>>(
        &mut self,
        now: i64,
        evaluate: F,
    ) -> (r: Result<Vec<T>, StoreError>)
        requires
            old(self).wf(),
            forall|source: &ScheduleTickSource| call_requires(evaluate, (source,)),
        ensures
            final(self).wf(),
            match r {
                Ok(found) => exists|order: Seq<int>|
                    #[trigger] ticked(*old(self), *final(self), order, found@, now, evaluate),
                Err(error) => {
                    &&& *final(self) == *old(self)
                    &&& exists|order: Seq<int>, m: int|
                        #[trigger] tick_failed::<T, F>(*old(self), order, m, error, now, evaluate)
                },
            },
    {
        let ghost start = *self;
        let places: Vec<usize> = self.due_order(now);
        let ghost order = places@.map_values(|place: usize| place as int);
        let mut runtimes: Vec<ScheduleRuntime> = Vec::new();
        let mut found: Vec<T> = Vec::new();
        let mut i: usize = 0;
        while i < places.len()
            invariant
                *self == start,
                start.wf(),
                i <= places.len(),
                runtimes@.len() == i,
                found@.len() == i,
                order == places@.map_values(|place: usize| place as int),
                is_due_order(start, now, order),
                forall|source: &ScheduleTickSource| call_requires(evaluate, (source,)),
                forall|m: int|
                    0 <= m < i ==> call_ensures(
                        evaluate,
                        (&tick_source(start, #[trigger] order[m]),),
                        Ok((runtimes@[m], found@[m])),
                    ),
            decreases places.len() - i,
        {
            assert(order[i as int] == places@[i as int]);
            assert(is_due(start, order[i as int], now));
            let source: ScheduleTickSource = self.source_of(places[i]);
            match evaluate(&source) {
                Err(error) => {
                    assert forall|l: int| 0 <= l < i implies exists|outcome: (ScheduleRuntime, T)|
                        call_ensures(evaluate, (&tick_source(start, #[trigger] order[l]),), Ok(outcome)) by {
                        let outcome = (runtimes@[l], found@[l]);
                        assert(call_ensures(evaluate, (&tick_source(start, order[l]),), Ok(outcome)));
                    }
                    let fault: Result<Vec<T>, StoreError> = Err(error);
                    assert(tick_failed::<T, F>(start, order, i as int, fault->Err_0, now, evaluate));
                    return fault;
                },
                Ok((runtime, value)) => {
                    runtimes.push(runtime);
                    found.push(value);
                },
            }
            i = i + 1;
        }
        let mut n: usize = 0;
        while n < places.len()
            invariant
                start.wf(),
                n <= places.len(),
                runtimes@.len() == places@.len(),
                order == places@.map_values(|place: usize| place as int),
                is_due_order(start, now, order),
                *self == (Store { schedules: self.schedules, ..start }),
                self.schedules@.len() == start.schedules@.len(),
                forall|k: int|
                    0 <= k < start.schedules@.len() ==> (#[trigger] self.schedules@[k]) == (ScheduleRow {
                        runtime: self.schedules@[k].runtime,
                        ..start.schedules@[k]
                    }),
                forall|k: int|
                    0 <= k < start.schedules@.len() && !order.contains(k) ==> (#[trigger] self.schedules@[k])
                        == start.schedules@[k],
                forall|m: int| 0 <= m < n ==> self.schedules@[#[trigger] order[m]].runtime == runtimes@[m],
            decreases places.len() - n,
        {
            assert(order[n as int] == places@[n as int]);
            assert(is_due(start, order[n as int], now));
            assert(order.contains(order[n as int]));
            let place: usize = places[n];
            let row: &mut ScheduleRow = &mut self.schedules[place];
            row.runtime = runtimes[n];
            n = n + 1;
        }
        proof {
            keys::lemma_keys_kept(start, *self);
            assert forall|k: int| 0 <= k < start.schedules@.len() implies (#[trigger] self.schedules@[k]) == (if is_due(
                start,
                k,
                now,
            ) {
                ScheduleRow { runtime: self.schedules@[k].runtime, ..start.schedules@[k] }
            } else {
                start.schedules@[k]
            }) by {
                if order.contains(k) {
                    let m = choose|m: int| 0 <= m < order.len() && order[m] == k;
                    assert(is_due(start, order[m], now));
                }
            }
        }
        let outcome: Result<Vec<T>, StoreError> = Ok(found);
        assert(ticked(*old(self), *self, order, outcome->Ok_0@, now, evaluate));
        outcome
    }
}

/// A schedule is looked at exactly where its moment has come and its mirror is in force, and what is
/// looked at is what the tables hold of it: the mirror's current configuration, the schedule as it
/// stands, and whether a run of the mirror has not ended.
pub proof fn law_schedules_are_looked_at_when_due(s: Store, now: i64, order: Seq<int>, k: int, m: int, g: int)
    requires
        s.wf(),
        is_due_order(s, now, order),
        0 <= k < s.schedules@.len(),
        0 <= m < s.mirrors@.len(),
        s.mirrors@[m].name@ == s.schedules@[k].mirror_name@,
        0 <= g < s.generations@.len(),
        s.generations@[g].mirror_name@ == s.mirrors@[m].name@,
        s.generations@[g].generation == s.mirrors@[m].current_generation,
    ensures
        order.contains(k) <==> s.mirrors@[m].managed && s.mirrors@[m].enabled && s.schedules@[k].runtime.next_due_at_ms is Some
            && s.schedules@[k].runtime.next_due_at_ms->0 <= now,
        tick_source(s, k).mirror_name@ == s.schedules@[k].mirror_name@,
        tick_source(s, k).config_toml == s.generations@[g].config_toml,
        tick_source(s, k).runtime == s.schedules@[k].runtime,
        tick_source(s, k).has_active_run <==> exists|i: int|
            0 <= i < s.runs@.len() && (#[trigger] s.runs@[i]).record.mirror_name@ == s.mirrors@[m].name@ && (
            s.runs@[i].record.state == RunState::Pending || s.runs@[i].record.state == RunState::Running),
        forall|a: int, b: int|
            0 <= a < b < order.len() ==> s.schedules@[#[trigger] order[a]].runtime.next_due_at_ms->0
                <= s.schedules@[#[trigger] order[b]].runtime.next_due_at_ms->0,
{
    super::lookup::lemma_own_mirror(s.mirrors@, m);
    super::lookup::lemma_own_generation(s.generations@, g);
    if order.contains(k) {
        let at = choose|at: int| 0 <= at < order.len() && order[at] == k;
        assert(is_due(s, order[at], now));
    }
}

/// Looking changes only what is known of the schedules that were due: not whose they are, not what they
/// say, nothing of the others and of no other table.
pub proof fn law_only_due_schedules_change<T, F: Fn(&ScheduleTickSource) -> Result<(ScheduleRuntime, T), StoreError>>(
    before: Store,
    after: Store,
    order: Seq<int>,
    found: Seq<T>,
    now: i64,
    evaluate: F,
    k: int,
)
    requires
        ticked(before, after, order, found, now, evaluate),
        0 <= k < before.schedules@.len(),
    ensures
        after.schedules@[k].mirror_name == before.schedules@[k].mirror_name,
        after.schedules@[k].schedule_hash == before.schedules@[k].schedule_hash,
        before.schedules@[k].runtime.next_due_at_ms is None || before.schedules@[k].runtime.next_due_at_ms->0 > now
            ==> after.schedules@[k] == before.schedules@[k],
        !order.contains(k) ==> after.schedules@[k] == before.schedules@[k],
        after.schedules@.len() == before.schedules@.len(),
        after.runs == before.runs,
        after.attempts == before.attempts,
        after.mirrors == before.mirrors,
        after.generations == before.generations,
        found.len() == order.len(),
{
}

} // verus!
