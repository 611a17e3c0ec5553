//! The one form of a cron expression.
use super::schedule::cron_form_fault;
use super::schedule::joined;
use super::schedule::upper;
use super::schedule::word_fault;
use crate::outside;
use crate::text;
use crate::text::word_runs;
use crate::text::words;
use crate::text::Separator;
use vstd::prelude::*;

verus! {

/// Some texts in upper case.
pub open spec fn all_upper(list: Seq<Seq<char>>) -> Seq<Seq<char>> {
    list.map_values(|word: Seq<char>| upper(word))
}

/// The fields of a cron expression in upper case, with one blank between each two.
pub open spec fn tidied(expression: Seq<char>) -> Seq<char> {
    joined(all_upper(words(expression, Separator::Space)), " "@)
}

/// True of an expression whose fields are ASCII.
pub open spec fn ascii_fields(expression: Seq<char>) -> bool {
    forall|k: int, i: int|
        #![trigger words(expression, Separator::Space)[k][i]]
        0 <= k < words(expression, Separator::Space).len() && 0 <= i < words(expression, Separator::Space)[k].len()
            ==> (words(expression, Separator::Space)[k][i] as u32) < 128
}

/// What is in upper case stays as it is.
proof fn lemma_upper_twice(s: Seq<char>)
    ensures
        upper(upper(s)) == upper(s),
{
}

/// One more text behind some.
proof fn lemma_joined_push(list: Seq<Seq<char>>, last: Seq<char>)
    ensures
        joined(list.push(last), " "@) == (if list.len() == 0 {
            last
        } else {
            joined(list, " "@).push(' ') + last
        }),
{
    reveal_strlit(" ");
    assert(list.push(last).drop_last() == list);
    if list.len() > 0 {
        assert(joined(list, " "@) + " "@ == joined(list, " "@).push(' '));
    }
}

/// Some words joined by blanks are the words of the whole.
proof fn lemma_words_joined(list: Seq<Seq<char>>)
    requires
        list.len() > 0,
        forall|k: int| 0 <= k < list.len() ==> (#[trigger] list[k]).len() > 0,
        forall|k: int, i: int|
            #![trigger list[k][i]]
            0 <= k < list.len() && 0 <= i < list[k].len() ==> !text::is_space(list[k][i]),
    ensures
        word_runs(joined(list, " "@), Separator::Space) == (list.drop_last(), list.last()),
    decreases list.len(),
{
    let before = list.drop_last();
    let last = list.last();
    assert(list == before.push(last));
    lemma_joined_push(before, last);
    if before.len() == 0 {
        lemma_runs_extended(Seq::empty(), last);
        assert(Seq::<char>::empty() + last == last);
        assert(before == Seq::<Seq<char>>::empty());
    } else {
        assert forall|k: int, i: int|
            #![trigger before[k][i]]
            0 <= k < before.len() && 0 <= i < before[k].len() implies !text::is_space(before[k][i]) by {
            assert(before[k] == list[k]);
            assert(!text::is_space(list[k][i]));
        }
        assert forall|k: int| 0 <= k < before.len() implies (#[trigger] before[k]).len() > 0 by {
            assert(before[k] == list[k]);
        }
        lemma_words_joined(before);
        let start = joined(before, " "@).push(' ');
        assert(start.drop_last() == joined(before, " "@));
        assert(before.drop_last().push(before.last()) == before);
        assert(before.last() == list[list.len() - 2]);
        assert(word_runs(start, Separator::Space) == (before, Seq::<char>::empty()));
        lemma_runs_extended(start, last);
        assert(Seq::<char>::empty() + last == last);
    }
}

/// Characters that are no blanks go on with the word that is open.
proof fn lemma_runs_extended(s: Seq<char>, more: Seq<char>)
    requires
        forall|i: int| 0 <= i < more.len() ==> !text::is_space(#[trigger] more[i]),
    ensures
        word_runs(s + more, Separator::Space) == (
            word_runs(s, Separator::Space).0,
            word_runs(s, Separator::Space).1 + more,
        ),
    decreases more.len(),
{
    let open = word_runs(s, Separator::Space).1;
    if more.len() == 0 {
        assert(s + more == s);
        assert(open + more == open);
    } else {
        assert forall|i: int| 0 <= i < more.drop_last().len() implies !text::is_space(
            #[trigger] more.drop_last()[i],
        ) by {
            assert(more.drop_last()[i] == more[i]);
        }
        lemma_runs_extended(s, more.drop_last());
        assert((s + more).drop_last() == s + more.drop_last());
        assert((s + more).last() == more.last());
        assert((open + more.drop_last()).push(more.last()) == open + more);
        assert(!text::is_space(more[more.len() - 1]));
    }
}

/// The fields of an expression are not empty and hold no blanks.
proof fn lemma_fields(expression: Seq<char>)
    ensures
        forall|k: int|
            0 <= k < words(expression, Separator::Space).len() ==> (#[trigger] words(
                expression,
                Separator::Space,
            )[k]).len() > 0,
        forall|k: int, i: int|
            #![trigger words(expression, Separator::Space)[k][i]]
            0 <= k < words(expression, Separator::Space).len() && 0 <= i < words(expression, Separator::Space)[k].len()
                ==> !text::is_space(words(expression, Separator::Space)[k][i]),
    decreases expression.len(),
{
    if expression.len() > 0 {
        lemma_fields(expression.drop_last());
        let all = words(expression, Separator::Space);
        let before = words(expression.drop_last(), Separator::Space);
        let (done, open) = word_runs(expression.drop_last(), Separator::Space);
        assert forall|k: int| 0 <= k < done.len() implies (#[trigger] done[k]).len() > 0 by {
            assert(before[k] == done[k]);
        }
        assert forall|k: int, i: int|
            #![trigger done[k][i]]
            0 <= k < done.len() && 0 <= i < done[k].len() implies !text::is_space(done[k][i]) by {
            assert(before[k] == done[k]);
            assert(!text::is_space(before[k][i]));
        }
        assert forall|i: int| 0 <= i < open.len() implies !text::is_space(#[trigger] open[i]) by {
            assert(before[before.len() - 1] == open);
            assert(!text::is_space(before[before.len() - 1][i]));
        }
        assert forall|k: int, i: int|
            #![trigger all[k][i]]
            0 <= k < all.len() && 0 <= i < all[k].len() implies !text::is_space(all[k][i]) by {
            if k < done.len() {
                assert(all[k] == done[k]);
                assert(!text::is_space(done[k][i]));
            }
        }
        assert forall|k: int| 0 <= k < all.len() implies (#[trigger] all[k]).len() > 0 by {
            if k < done.len() {
                assert(all[k] == done[k]);
            }
        }
    }
}

/// The fields of a tidied expression are those of the expression in upper case.
proof fn lemma_tidied_fields(expression: Seq<char>)
    ensures
        words(tidied(expression), Separator::Space) == all_upper(words(expression, Separator::Space)),
{
    let fields = words(expression, Separator::Space);
    let list = all_upper(fields);
    lemma_fields(expression);
    if fields.len() == 0 {
        assert(list == Seq::<Seq<char>>::empty());
    } else {
        assert forall|k: int| 0 <= k < list.len() implies (#[trigger] list[k]).len() > 0 by {
            assert(fields[k].len() > 0);
        }
        assert forall|k: int, i: int|
            #![trigger list[k][i]]
            0 <= k < list.len() && 0 <= i < list[k].len() implies !text::is_space(list[k][i]) by {
            assert(!text::is_space(fields[k][i]));
        }
        lemma_words_joined(list);
        assert(list.drop_last().push(list.last()) == list);
        assert(list.last() == list[list.len() - 1]);
    }
}

/// One more text in upper case behind some.
proof fn lemma_all_upper_push(list: Seq<Seq<char>>, last: Seq<char>)
    ensures
        all_upper(list.push(last)) == all_upper(list).push(upper(last)),
{
}

/// The month and weekday names of a tidied expression are those of the expression in upper case; no
/// sign comes to stand in it.
proof fn lemma_tidied_names(expression: Seq<char>, sign: char)
    requires
        !text::is_letter(sign),
        sign != ' ',
        !expression.contains(sign),
    ensures
        words(tidied(expression), Separator::NonLetter) == all_upper(words(expression, Separator::NonLetter)),
        word_runs(expression, Separator::Space).1.len() > 0 ==> word_runs(tidied(expression), Separator::NonLetter)
            == (
            all_upper(word_runs(expression, Separator::NonLetter).0),
            upper(word_runs(expression, Separator::NonLetter).1),
        ),
        !tidied(expression).contains(sign),
    decreases expression.len(),
{
    let tidy = tidied(expression);
    let fields = words(expression, Separator::Space);
    if expression.len() == 0 {
        assert(fields == Seq::<Seq<char>>::empty());
        assert(all_upper(fields) == Seq::<Seq<char>>::empty());
        assert(tidy == Seq::<char>::empty());
        assert(all_upper(words(expression, Separator::NonLetter)) == Seq::<Seq<char>>::empty());
    } else {
        let shorter = expression.drop_last();
        let c = expression.last();
        let u = outside::ascii_upper(c);
        assert forall|i: int| 0 <= i < shorter.len() implies #[trigger] shorter[i] != sign by {
            assert(shorter[i] == expression[i]);
        }
        lemma_tidied_names(shorter, sign);
        let before = tidied(shorter);
        let (done, open) = word_runs(shorter, Separator::Space);
        let (letters_done, letters_open) = word_runs(shorter, Separator::NonLetter);
        let names = words(shorter, Separator::NonLetter);
        assert(c != sign) by {
            assert(expression[expression.len() - 1] == c);
        }
        if text::is_space(c) {
            assert(fields == words(shorter, Separator::Space));
            assert(tidy == before);
            assert(words(expression, Separator::NonLetter) == names);
        } else {
            assert(fields == done.push(open.push(c)));
            lemma_all_upper_push(done, open.push(c));
            lemma_joined_push(all_upper(done), upper(open.push(c)));
            assert(upper(open.push(c)) == upper(open).push(u));
            let start = if open.len() > 0 {
                before
            } else if done.len() > 0 {
                before.push(' ')
            } else {
                before
            };
            if open.len() > 0 {
                lemma_all_upper_push(done, open);
                lemma_joined_push(all_upper(done), upper(open));
                assert(tidy == before.push(u));
            } else {
                assert(upper(open) == Seq::<char>::empty());
                assert(letters_open.len() == 0) by {
                    lemma_closed(shorter);
                }
                if done.len() > 0 {
                    assert(tidy == before.push(' ').push(u));
                    assert(start.drop_last() == before);
                } else {
                    assert(all_upper(done) == Seq::<Seq<char>>::empty());
                    assert(before == Seq::<char>::empty());
                    assert(tidy == before.push(u));
                    assert(word_runs(before, Separator::NonLetter).0 == Seq::<Seq<char>>::empty());
                }
            }
            assert(upper(letters_open).len() == letters_open.len());
            assert(word_runs(start, Separator::NonLetter) == (all_upper(letters_done), upper(letters_open)));
            assert(tidy.drop_last() == start);
            assert(tidy.last() == u);
            lemma_all_upper_push(letters_done, letters_open);
            lemma_all_upper_push(letters_done, letters_open.push(c));
            assert(upper(letters_open.push(c)) == upper(letters_open).push(u));
            assert forall|i: int| 0 <= i < tidy.len() implies #[trigger] tidy[i] != sign by {
                if i < before.len() {
                    assert(tidy[i] == before[i]);
                }
            }
        }
    }
}

/// Where no field is open, no name is.
proof fn lemma_closed(s: Seq<char>)
    requires
        word_runs(s, Separator::Space).1.len() == 0,
    ensures
        word_runs(s, Separator::NonLetter).1.len() == 0,
{
}

/// Names that are accepted are accepted in upper case too.
proof fn lemma_upper_names(list: Seq<Seq<char>>)
    requires
        word_fault(list) is None,
    ensures
        word_fault(all_upper(list)) is None,
    decreases list.len(),
{
    if list.len() > 0 {
        lemma_upper_names(list.drop_first());
        lemma_upper_twice(list[0]);
        assert(all_upper(list).drop_first() == all_upper(list.drop_first()));
        assert(all_upper(list)[0] == upper(list[0]));
    } else {
        assert(all_upper(list) == list);
    }
}

/// A tidied expression is its own tidied form, and is in the supported form where the expression is.
pub proof fn lemma_tidied(expression: Seq<char>)
    requires
        cron_form_fault(expression) is None,
    ensures
        words(tidied(expression), Separator::Space) == all_upper(words(expression, Separator::Space)),
        tidied(tidied(expression)) == tidied(expression),
        cron_form_fault(tidied(expression)) is None,
{
    let fields = words(expression, Separator::Space);
    lemma_tidied_fields(expression);
    assert(all_upper(all_upper(fields)) == all_upper(fields)) by {
        assert forall|k: int| 0 <= k < fields.len() implies #[trigger] all_upper(all_upper(fields))[k] == all_upper(
            fields,
        )[k] by {
            lemma_upper_twice(fields[k]);
        }
    }
    lemma_tidied_names(expression, '@');
    lemma_tidied_names(expression, '?');
    lemma_tidied_names(expression, '#');
    lemma_tidied_names(expression, '+');
    lemma_upper_names(words(expression, Separator::NonLetter));
}

/// It does not matter how many blanks stand before and between the fields of a calendar expression.
pub proof fn law_blanks_between_fields_do_not_matter(front: Seq<char>, rest: Seq<char>)
    ensures
        tidied(front + seq![' '] + (seq![' '] + rest)) == tidied(front + seq![' '] + rest),
        tidied(seq![' '] + rest) == tidied(rest),
{
    let empty = Seq::<char>::empty();
    crate::text::law_words_stand_between_separators(front, ' ', seq![' '] + rest, Separator::Space);
    crate::text::law_words_stand_between_separators(front, ' ', rest, Separator::Space);
    crate::text::law_words_stand_between_separators(empty, ' ', rest, Separator::Space);
    assert(empty + seq![' '] + rest =~= seq![' '] + rest);
    assert(words(empty, Separator::Space) + words(rest, Separator::Space) =~= words(rest, Separator::Space));
}

} // verus!
