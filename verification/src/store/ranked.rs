//! Lists in the order in which they are shown.
use vstd::prelude::*;

verus! {

/// Values that are listed in an order of their own.
pub trait Ranked: Sized {
    /// True when a value is listed before another.
    spec fn precedes(&self, other: &Self) -> bool;

    /// True when a value is listed before another.
    fn is_before(&self, other: &Self) -> (r: bool)
        ensures
            r == self.precedes(other),
    ;

    /// The order is transitive and no two values are listed before each other.
    proof fn lemma_order(a: &Self, b: &Self, c: &Self)
        ensures
            a.precedes(b) && b.precedes(c) ==> a.precedes(c),
            !(a.precedes(b) && b.precedes(a)),
    ;
}

/// True when no value of the list is listed after one that it precedes.
pub open spec fn in_rank<T: Ranked>(list: Seq<T>) -> bool {
    forall|i: int, j: int|
        #![trigger list[i], list[j]]
        0 <= i < j < list.len() ==> !list[j].precedes(&list[i])
}

fn insert_ranked<T: Ranked>(list: &mut Vec<T>, item: T)
    requires
        in_rank(old(list)@),
    ensures
        in_rank(final(list)@),
        final(list)@.to_multiset() == old(list)@.to_multiset().insert(item),
{
    let ghost start = list@;
    let mut at: usize = 0;
    while at < list.len() && !item.is_before(&list[at])
        invariant
            at <= list.len(),
            list@ == start,
            forall|k: int| #![trigger start[k]] 0 <= k < at ==> !item.precedes(&start[k]),
        decreases list.len() - at,
    {
        at = at + 1;
    }
    proof {
        let after = start.insert(at as int, item);
        assert forall|i: int, j: int|
            #![trigger after[i], after[j]]
            0 <= i < j < after.len() implies !after[j].precedes(&after[i]) by {
            let x = if i < at { i } else { i - 1 };
            let y = if j < at { j } else { j - 1 };
            if i != at {
                assert(after[i] == start[x]);
            }
            if j != at {
                assert(after[j] == start[y]);
            }
            if i == at {
                T::lemma_order(&start[y], &item, &start[at as int]);
                T::lemma_order(&item, &start[at as int], &item);
                if y > at {
                    assert(!start[y].precedes(&start[at as int]));
                }
            } else if j != at {
                assert(!start[y].precedes(&start[x]));
            }
        }
        assert(after.remove(at as int) == start);
        after.to_multiset_ensures();
        assert(after[at as int] == item);
        assert(after.contains(item));
        assert(after.to_multiset().count(item) > 0);
        assert(after.to_multiset().remove(item).insert(item) =~= after.to_multiset());
    }
    list.insert(at, item);
}

/// Two lists of the same values hold the same ones, and both or neither hold one twice.
pub proof fn lemma_same_values<T>(a: Seq<T>, b: Seq<T>)
    requires
        a.to_multiset() == b.to_multiset(),
    ensures
        a.len() == b.len(),
        forall|x: T| #[trigger] a.contains(x) <==> b.contains(x),
        a.no_duplicates() ==> b.no_duplicates(),
{
    a.to_multiset_ensures();
    b.to_multiset_ensures();
    assert forall|x: T| #[trigger] a.contains(x) <==> b.contains(x) by {
        assert(a.contains(x) <==> a.to_multiset().count(x) > 0);
        assert(b.contains(x) <==> b.to_multiset().count(x) > 0);
    }
    if a.no_duplicates() {
        a.lemma_multiset_has_no_duplicates();
        b.lemma_multiset_has_no_duplicates_conv();
    }
}

/// The values in their order.
pub fn ranked<T: Ranked>(items: Vec<T>) -> (r: Vec<T>)
    ensures
        in_rank(r@),
        r@.to_multiset() == items@.to_multiset(),
        r@.len() == items@.len(),
{
    let ghost all = items@;
    let mut out: Vec<T> = Vec::new();
    proof {
        all.take(0).to_multiset_ensures();
        out@.to_multiset_ensures();
        assert(all.take(0) == out@);
    }
    for item in it: items
        invariant
            it.seq() == all,
            in_rank(out@),
            out@.to_multiset() == all.take(it.index()).to_multiset(),
    {
        proof {
            let next = all.take(it.index() + 1);
            assert(next == all.take(it.index()).push(item));
            all.take(it.index()).to_multiset_ensures();
        }
        insert_ranked(&mut out, item);
    }
    proof {
        assert(all.take(all.len() as int) == all);
        out@.to_multiset_ensures();
        all.to_multiset_ensures();
    }
    out
}

} // verus!
