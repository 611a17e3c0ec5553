//! Questions that an operation puts to its caller.
use vstd::prelude::*;

verus! {

/// True when `answer` is one that `answerer` may give to `question`.
pub open spec fn answers<Q, A>(answerer: spec_fn(Q, A) -> bool, question: Q, answer: A) -> bool {
    answerer(question, answer)
}

/// True when a function that reads a text may come to `answer` for it.
pub open spec fn reads_as<F: FnOnce(&str) -> A, A>(reader: F, text: Seq<char>, answer: A) -> bool {
    exists|read: &str| read@ == text && #[trigger] call_ensures(reader, (read,), answer)
}

} // verus!
