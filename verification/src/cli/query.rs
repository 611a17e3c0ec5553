//! Addresses with queries.
use super::errors::CliError;
use super::errors::CliErrorView;
use crate::outside;
use crate::outside::pair_views;
use crate::outside::pairs_length;
use vstd::prelude::*;

verus! {

/// The number of characters below which an address and its query stay in any encoding within what
/// an address can hold.
pub const QUERY_LIMIT: usize = 0x1000_0000;

/// True when an address and its query are short enough to be written.
pub open spec fn fits(address: Seq<char>, pairs: Seq<(Seq<char>, Seq<char>)>) -> bool {
    address.len() + pairs_length(pairs) < QUERY_LIMIT
}

proof fn lemma_prefix_is_shorter(pairs: Seq<(Seq<char>, Seq<char>)>, n: int)
    requires
        0 <= n <= pairs.len(),
    ensures
        pairs_length(pairs.take(n)) <= pairs_length(pairs),
    decreases pairs.len() - n,
{
    if n < pairs.len() {
        lemma_prefix_is_shorter(pairs, n + 1);
        assert(pairs.take(n + 1).drop_last() == pairs.take(n));
    } else {
        assert(pairs.take(n) == pairs);
    }
}

/// Tells whether an address and its query are short enough to be written.
pub fn query_fits(address: &str, pairs: &Vec<(String, String)>) -> (r: bool)
    ensures
        r == fits(address@, pair_views(pairs@)),
{
    let ghost all = pair_views(pairs@);
    let mut total: usize = address.unicode_len();
    if total >= QUERY_LIMIT {
        return false;
    }
    let mut i: usize = 0;
    assert(all.take(0) =~= Seq::empty());
    while i < pairs.len()
        invariant
            i <= pairs.len(),
            all == pair_views(pairs@),
            total < QUERY_LIMIT,
            total == address@.len() + pairs_length(all.take(i as int)),
        decreases pairs.len() - i,
    {
        proof {
            assert(all.take(i + 1).drop_last() == all.take(i as int));
            assert(all.take(i + 1).last() == all[i as int]);
            assert(all[i as int] == (pairs@[i as int].0@, pairs@[i as int].1@));
            lemma_prefix_is_shorter(all, i + 1);
        }
        let key: usize = pairs[i].0.as_str().unicode_len();
        let value: usize = pairs[i].1.as_str().unicode_len();
        if key >= QUERY_LIMIT - total {
            return false;
        }
        total = total + key;
        if value >= QUERY_LIMIT - total {
            return false;
        }
        total = total + value;
        i = i + 1;
    }
    assert(all.take(all.len() as int) == all);
    true
}

/// What an address with a query comes to, or the error for one that is no address.
pub open spec fn queried(address: Seq<char>, pairs: Seq<(Seq<char>, Seq<char>)>) -> Result<Seq<char>, CliErrorView> {
    match outside::queried_address(address, pairs) {
        Ok(url) => Ok(url),
        Err(error) => Err(CliErrorView { exit_code: 2, message: error }),
    }
}

/// An address with a query, in form encoding.
pub fn with_query(address: &str, pairs: &Vec<(String, String)>) -> (r: Result<String, CliError>)
    requires
        fits(address@, pair_views(pairs@)),
    ensures
        match r {
            Ok(url) => queried(address@, pair_views(pairs@)) == Ok::<Seq<char>, CliErrorView>(url@),
            Err(error) => queried(address@, pair_views(pairs@)) == Err::<Seq<char>, CliErrorView>(error@),
        },
{
    match outside::query_address(address, pairs) {
        Ok(url) => Ok(url),
        Err(error) => Err(CliError::local(error)),
    }
}

} // verus!
