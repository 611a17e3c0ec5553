//! Which changes of the schema are still to be made.
use super::tables::StoreError;
use vstd::prelude::*;

verus! {

/// The latest schema that the migrations lead to.
pub open spec fn supported(versions: Seq<u32>) -> u32 {
    if versions.len() == 0 {
        0
    } else {
        versions.last()
    }
}

/// The versions behind a given one, in their order.
pub open spec fn versions_behind(versions: Seq<u32>, current: u32) -> Seq<u32>
    decreases versions.len(),
{
    if versions.len() == 0 {
        Seq::empty()
    } else if versions.last() > current {
        versions_behind(versions.drop_last(), current).push(versions.last())
    } else {
        versions_behind(versions.drop_last(), current)
    }
}

/// Plans which migrations are to be made on a database of some version, each in a transaction of its
/// own. A database of a later version than any migration is refused.
pub fn plan_migrations(current: u32, versions: &Vec<u32>) -> (r: Result<Vec<u32>, StoreError>)
    ensures
        match r {
            Ok(pending) => current <= supported(versions@) && pending@ == versions_behind(versions@, current),
            Err(error) => current > supported(versions@) && error == (StoreError::FutureSchema {
                found: current,
                supported: supported(versions@),
            }),
        },
{
    let latest: u32 = if versions.len() == 0 {
        0
    } else {
        versions[versions.len() - 1]
    };
    if current > latest {
        return Err(StoreError::FutureSchema { found: current, supported: latest });
    }
    let mut pending: Vec<u32> = Vec::new();
    let mut i: usize = 0;
    assert(versions@.take(0) =~= Seq::empty());
    while i < versions.len()
        invariant
            i <= versions.len(),
            pending@ == versions_behind(versions@.take(i as int), current),
        decreases versions.len() - i,
    {
        assert(versions@.take(i + 1).drop_last() == versions@.take(i as int));
        if versions[i] > current {
            pending.push(versions[i]);
        }
        i = i + 1;
    }
    assert(versions@.take(versions@.len() as int) == versions@);
    Ok(pending)
}

/// A database that has been brought to the latest version has nothing left to be done.
pub proof fn law_migrated_is_migrated(versions: Seq<u32>, current: u32)
    requires
        forall|i: int| 0 <= i < versions.len() ==> (#[trigger] versions[i]) <= current,
    ensures
        versions_behind(versions, current).len() == 0,
    decreases versions.len(),
{
    if versions.len() > 0 {
        assert(versions[versions.len() - 1] <= current);
        assert forall|i: int| 0 <= i < versions.drop_last().len() implies (#[trigger] versions.drop_last()[i])
            <= current by {
            assert(versions[i] <= current);
        }
        law_migrated_is_migrated(versions.drop_last(), current);
    }
}

/// The versions to take are those above the current one, each once and in the order in which they are
/// known; none is taken twice and none is passed over.
pub proof fn law_versions_above_are_taken(versions: Seq<u32>, current: u32)
    requires
        forall|i: int, j: int| 0 <= i < j < versions.len() ==> #[trigger] versions[i] < #[trigger] versions[j],
    ensures
        forall|v: u32| #[trigger] versions_behind(versions, current).contains(v) <==> versions.contains(v) && v > current,
        forall|i: int, j: int|
            0 <= i < j < versions_behind(versions, current).len() ==> #[trigger] versions_behind(versions, current)[i]
                < #[trigger] versions_behind(versions, current)[j],
        forall|v: u32| versions.contains(v) ==> v <= supported(versions),
    decreases versions.len(),
{
    let all = versions_behind(versions, current);
    if versions.len() > 0 {
        let rest = versions.drop_last();
        law_versions_above_are_taken(rest, current);
        let before = versions_behind(rest, current);
        assert forall|v: u32| #[trigger] all.contains(v) <==> versions.contains(v) && v > current by {
            if all.contains(v) {
                let i = choose|i: int| 0 <= i < all.len() && all[i] == v;
                if i < before.len() {
                    assert(before[i] == v);
                    assert(before.contains(v));
                    let k = choose|k: int| 0 <= k < rest.len() && rest[k] == v;
                    assert(versions[k] == v);
                } else {
                    assert(versions[versions.len() - 1] == v);
                }
            }
            if versions.contains(v) && v > current {
                let k = choose|k: int| 0 <= k < versions.len() && versions[k] == v;
                if k < rest.len() {
                    assert(rest[k] == v);
                    assert(rest.contains(v));
                    assert(before.contains(v));
                    let i = choose|i: int| 0 <= i < before.len() && before[i] == v;
                    assert(all[i] == v);
                } else {
                    assert(all[all.len() - 1] == v);
                }
            }
        }
        assert forall|i: int, j: int| 0 <= i < j < all.len() implies #[trigger] all[i] < #[trigger] all[j] by {
            if j < before.len() {
                assert(before[i] < before[j]);
            } else {
                assert(all[i] == before[i]);
                assert(before.contains(before[i]));
                let k = choose|k: int| 0 <= k < rest.len() && rest[k] == before[i];
                assert(versions[k] < versions[versions.len() - 1]);
            }
        }
        assert forall|v: u32| versions.contains(v) implies v <= supported(versions) by {
            let k = choose|k: int| 0 <= k < versions.len() && versions[k] == v;
            if k < versions.len() - 1 {
                assert(versions[k] < versions[versions.len() - 1]);
            }
        }
    }
}

} // verus!
