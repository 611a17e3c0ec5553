//! Text helpers: characters, decimal numerals, separated words and lexicographic order.
use vstd::prelude::*;

verus! {

/// `String::push` appends one character.
pub assume_specification[ String::push ](s: &mut String, c: char)
    ensures
        final(s)@ == old(s)@.push(c),
;

/// True when the two texts hold the same characters.
pub fn same(a: &str, b: &str) -> (r: bool)
    ensures
        r == (a@ == b@),
{
    let left: String = a.to_owned();
    let right: String = b.to_owned();
    left == right
}

/// True when an optional text is present and equal to `b`.
pub fn same_opt(a: &Option<String>, b: &str) -> (r: bool)
    ensures
        r == (a is Some && a->0@ == b@),
{
    match a {
        Some(value) => same(value.as_str(), b),
        None => false,
    }
}

/// The view of an optional text.
pub open spec fn opt_view(a: Option<String>) -> Option<Seq<char>> {
    match a {
        Some(value) => Some(value@),
        None => None,
    }
}

/// An equal copy of an optional text.
pub fn clone_opt(a: &Option<String>) -> (r: Option<String>)
    ensures
        r == *a,
{
    match a {
        Some(value) => Some(value.clone()),
        None => None,
    }
}

/// The views of a list of texts.
pub open spec fn views(a: Seq<String>) -> Seq<Seq<char>> {
    a.map_values(|value: String| value@)
}

/// An equal copy of a list of texts.
pub fn clone_list(a: &Vec<String>) -> (r: Vec<String>)
    ensures
        r@ == a@,
{
    let mut out: Vec<String> = Vec::new();
    let mut i: usize = 0;
    while i < a.len()
        invariant
            i <= a.len(),
            out@ == a@.take(i as int),
        decreases a.len() - i,
    {
        out.push(a[i].clone());
        assert(a@.take(i + 1) == a@.take(i as int).push(a@[i as int]));
        i = i + 1;
    }
    assert(a@.take(a.len() as int) == a@);
    out
}

/// True when the list holds the text.
pub fn list_contains(list: &Vec<String>, value: &str) -> (r: bool)
    ensures
        r == views(list@).contains(value@),
{
    let mut i: usize = 0;
    while i < list.len()
        invariant
            i <= list.len(),
            forall|k: int| 0 <= k < i ==> (#[trigger] list@[k])@ != value@,
        decreases list.len() - i,
    {
        if same(list[i].as_str(), value) {
            assert(views(list@)[i as int] == value@);
            return true;
        }
        i = i + 1;
    }
    assert forall|k: int| 0 <= k < views(list@).len() implies views(list@)[k] != value@ by {
        assert(views(list@)[k] == list@[k]@);
    }
    false
}

/// The characters of a text.
pub fn chars_of(s: &str) -> (v: Vec<char>)
    ensures
        v@ == s@,
{
    let mut v: Vec<char> = Vec::new();
    for c in it: s.chars()
        invariant
            it.seq() == s@,
            v@ == s@.take(it.index()),
    {
        v.push(c);
        assert(s@.take(it.index() + 1) == s@.take(it.index()).push(c));
    }
    assert(s@.take(s@.len() as int) == s@);
    v
}

/// The text made of the characters from `from` up to, not including, `to`.
pub fn text_between(v: &Vec<char>, from: usize, to: usize) -> (s: String)
    requires
        from <= to <= v.len(),
    ensures
        s@ == v@.subrange(from as int, to as int),
{
    let mut s: String = String::new();
    let mut i: usize = from;
    assert(v@.subrange(from as int, from as int) == Seq::<char>::empty());
    while i < to
        invariant
            from <= i <= to <= v.len(),
            s@ == v@.subrange(from as int, i as int),
        decreases to - i,
    {
        s.push(v[i]);
        assert(v@.subrange(from as int, i + 1) == v@.subrange(from as int, i as int).push(v@[i as int]));
        i = i + 1;
    }
    s
}

/// The text made of the given characters.
pub fn text_of(v: &Vec<char>) -> (s: String)
    ensures
        s@ == v@,
{
    let s: String = text_between(v, 0, v.len());
    assert(v@.subrange(0, v.len() as int) == v@);
    s
}

/// `a` followed by `b`.
pub fn join2(a: &str, b: &str) -> (s: String)
    ensures
        s@ == a@ + b@,
{
    let mut s: String = a.to_owned();
    s.append(b);
    s
}

/// `a`, `b` and `c` in a row.
pub fn join3(a: &str, b: &str, c: &str) -> (s: String)
    ensures
        s@ == a@ + b@ + c@,
{
    let mut s: String = a.to_owned();
    s.append(b);
    s.append(c);
    s
}

/// `a`, `b`, `c` and `d` in a row.
pub fn join4(a: &str, b: &str, c: &str, d: &str) -> (s: String)
    ensures
        s@ == a@ + b@ + c@ + d@,
{
    let mut s: String = a.to_owned();
    s.append(b);
    s.append(c);
    s.append(d);
    s
}

/// `a` to `e` in a row.
pub fn join5(a: &str, b: &str, c: &str, d: &str, e: &str) -> (s: String)
    ensures
        s@ == a@ + b@ + c@ + d@ + e@,
{
    let mut s: String = a.to_owned();
    s.append(b);
    s.append(c);
    s.append(d);
    s.append(e);
    s
}

/// The decimal digit of a number below ten.
pub open spec fn digit_char(d: nat) -> char {
    (('0' as u32) + d) as char
}

/// The decimal numeral of a number, without leading zeros.
pub open spec fn decimal(n: nat) -> Seq<char>
    decreases n,
{
    if n < 10 {
        seq![digit_char(n)]
    } else {
        decimal(n / 10).push(digit_char(n % 10))
    }
}

/// A numeral holds digits only, at least one.
pub proof fn lemma_decimal_digits(n: nat)
    ensures
        decimal(n).len() > 0,
        forall|i: int| 0 <= i < decimal(n).len() ==> is_digit(#[trigger] decimal(n)[i]),
    decreases n,
{
    if n >= 10 {
        lemma_decimal_digits(n / 10);
        assert forall|i: int| 0 <= i < decimal(n).len() implies is_digit(#[trigger] decimal(n)[i]) by {
            if i < decimal(n / 10).len() {
                assert(decimal(n)[i] == decimal(n / 10)[i]);
            }
        }
    }
}

/// Different numbers have different numerals.
pub proof fn lemma_decimal_injective(m: nat, n: nat)
    requires
        decimal(m) == decimal(n),
    ensures
        m == n,
    decreases m,
{
    lemma_decimal_digits(m / 10);
    lemma_decimal_digits(n / 10);
    assert(decimal(m).last() == digit_char(m % 10));
    assert(decimal(n).last() == digit_char(n % 10));
    if m >= 10 && n >= 10 {
        assert(decimal(m).drop_last() == decimal(m / 10));
        assert(decimal(n).drop_last() == decimal(n / 10));
        lemma_decimal_injective(m / 10, n / 10);
    }
}

/// A text with a number behind a hyphen tells both.
pub proof fn lemma_numbered(a: Seq<char>, m: nat, b: Seq<char>, n: nat)
    requires
        a + "-"@ + decimal(m) == b + "-"@ + decimal(n),
    ensures
        a == b,
        m == n,
{
    reveal_strlit("-");
    let x = decimal(m);
    let y = decimal(n);
    let whole = a + "-"@ + x;
    lemma_decimal_digits(m);
    lemma_decimal_digits(n);
    assert(whole.len() == a.len() + 1 + x.len());
    assert(whole.len() == b.len() + 1 + y.len());
    assert(whole[a.len() as int] == '-');
    assert((b + "-"@ + y)[b.len() as int] == '-');
    if a.len() < b.len() {
        let k: int = b.len() - a.len() - 1;
        assert(whole[a.len() + 1 + k] == x[k]);
        assert(is_digit(x[k]));
    }
    if b.len() < a.len() {
        let k: int = a.len() - b.len() - 1;
        assert((b + "-"@ + y)[b.len() + 1 + k] == y[k]);
        assert(is_digit(y[k]));
    }
    assert(whole.take(a.len() as int) == a);
    assert(whole.take(b.len() as int) == b);
    assert(whole.skip((a.len() + 1) as int) == x);
    assert(whole.skip((b.len() + 1) as int) == y);
    lemma_decimal_injective(m, n);
}

/// The decimal numeral of an integer, with a leading minus sign where it is negative.
pub open spec fn signed_decimal(n: int) -> Seq<char> {
    if n < 0 {
        seq!['-'] + decimal((-n) as nat)
    } else {
        decimal(n as nat)
    }
}

fn digit(d: u64) -> (c: char)
    requires
        d < 10,
    ensures
        c == digit_char(d as nat),
{
    match d {
        0 => '0',
        1 => '1',
        2 => '2',
        3 => '3',
        4 => '4',
        5 => '5',
        6 => '6',
        7 => '7',
        8 => '8',
        _ => '9',
    }
}

/// The decimal numeral of `n`.
pub fn decimal_text(n: u64) -> (s: String)
    ensures
        s@ == decimal(n as nat),
    decreases n,
{
    if n < 10 {
        let mut s: String = String::new();
        s.push(digit(n));
        assert(s@ == seq![digit_char(n as nat)]);
        s
    } else {
        let mut s: String = decimal_text(n / 10);
        s.push(digit(n % 10));
        s
    }
}

/// True of `A` to `Z` and `a` to `z`.
pub open spec fn is_letter(c: char) -> bool {
    ('a' <= c && c <= 'z') || ('A' <= c && c <= 'Z')
}

/// True of `0` to `9`.
pub open spec fn is_digit(c: char) -> bool {
    '0' <= c && c <= '9'
}

/// True of ASCII letters and digits.
pub open spec fn is_alphanumeric(c: char) -> bool {
    is_letter(c) || is_digit(c)
}

/// True of ASCII letters and digits.
pub fn alphanumeric(c: char) -> (r: bool)
    ensures
        r == is_alphanumeric(c),
{
    letter(c) || ('0' <= c && c <= '9')
}

/// True of ASCII letters.
pub fn letter(c: char) -> (r: bool)
    ensures
        r == is_letter(c),
{
    ('a' <= c && c <= 'z') || ('A' <= c && c <= 'Z')
}

/// The characters with the Unicode property White_Space.
pub open spec fn is_space(c: char) -> bool {
    ||| '\u{9}' <= c && c <= '\u{d}'
    ||| c == ' '
    ||| c == '\u{85}'
    ||| c == '\u{a0}'
    ||| c == '\u{1680}'
    ||| '\u{2000}' <= c && c <= '\u{200a}'
    ||| c == '\u{2028}'
    ||| c == '\u{2029}'
    ||| c == '\u{202f}'
    ||| c == '\u{205f}'
    ||| c == '\u{3000}'
}

/// True of the characters with the Unicode property White_Space.
pub fn space(c: char) -> (r: bool)
    ensures
        r == is_space(c),
{
    ('\u{9}' <= c && c <= '\u{d}') || c == ' ' || c == '\u{85}' || c == '\u{a0}' || c == '\u{1680}' || ('\u{2000}'
        <= c && c <= '\u{200a}') || c == '\u{2028}' || c == '\u{2029}' || c == '\u{202f}' || c == '\u{205f}' || c
        == '\u{3000}'
}

/// What parts the words of a text.
#[derive(Clone, Copy, Debug, PartialEq, Eq)]
pub enum Separator {
    /// White space.
    Space,
    /// Anything but an ASCII letter.
    NonLetter,
    /// A slash.
    Slash,
}

impl Separator {
    /// True when `c` parts two words.
    pub open spec fn parts(self, c: char) -> bool {
        match self {
            Separator::Space => is_space(c),
            Separator::NonLetter => !is_letter(c),
            Separator::Slash => c == '/',
        }
    }

    fn test(self, c: char) -> (r: bool)
        ensures
            r == self.parts(c),
    {
        match self {
            Separator::Space => space(c),
            Separator::NonLetter => !letter(c),
            Separator::Slash => c == '/',
        }
    }
}

/// The finished words of a text and the word that its end leaves open.
pub open spec fn word_runs(s: Seq<char>, sep: Separator) -> (Seq<Seq<char>>, Seq<char>)
    decreases s.len(),
{
    if s.len() == 0 {
        (Seq::empty(), Seq::empty())
    } else {
        let (done, open) = word_runs(s.drop_last(), sep);
        if !sep.parts(s.last()) {
            (done, open.push(s.last()))
        } else if open.len() > 0 {
            (done.push(open), Seq::empty())
        } else {
            (done, Seq::empty())
        }
    }
}

/// The words of a text: its longest runs without a separator, none of them empty, in order.
pub open spec fn words(s: Seq<char>, sep: Separator) -> Seq<Seq<char>> {
    let (done, open) = word_runs(s, sep);
    if open.len() > 0 {
        done.push(open)
    } else {
        done
    }
}

/// The words of a text.
pub fn words_of(s: &str, sep: Separator) -> (out: Vec<String>)
    ensures
        views(out@) == words(s@, sep),
{
    let chars: Vec<char> = chars_of(s);
    let mut out: Vec<String> = Vec::new();
    let mut open: String = String::new();
    let mut length: usize = 0;
    let mut i: usize = 0;
    assert(views(out@) == Seq::<Seq<char>>::empty());
    assert(chars@.take(0) == Seq::<char>::empty());
    while i < chars.len()
        invariant
            i <= chars.len(),
            chars@ == s@,
            length <= i,
            length == open@.len(),
            views(out@) == word_runs(s@.take(i as int), sep).0,
            open@ == word_runs(s@.take(i as int), sep).1,
        decreases chars.len() - i,
    {
        let c: char = chars[i];
        proof {
            assert(s@.take(i + 1).drop_last() == s@.take(i as int));
            assert(s@.take(i + 1).last() == c);
        }
        if !sep.test(c) {
            open.push(c);
            length = length + 1;
        } else {
            let ghost before = out@;
            if length > 0 {
                out.push(open);
                assert(views(out@) == views(before).push(out@.last()@));
            }
            open = String::new();
            length = 0;
        }
        i = i + 1;
    }
    assert(s@.take(s@.len() as int) == s@);
    if length > 0 {
        let ghost before = out@;
        out.push(open);
        assert(views(out@) == views(before).push(out@.last()@));
    }
    out
}

/// Lexicographic order by code points, which is also the order of the UTF-8 encodings.
pub open spec fn lex_less(a: Seq<char>, b: Seq<char>) -> bool
    decreases a.len(),
{
    if b.len() == 0 {
        false
    } else if a.len() == 0 {
        true
    } else if a[0] != b[0] {
        a[0] < b[0]
    } else {
        lex_less(a.drop_first(), b.drop_first())
    }
}

/// True when `a` comes before `b` in lexicographic order.
pub fn less(a: &str, b: &str) -> (r: bool)
    ensures
        r == lex_less(a@, b@),
{
    let left: Vec<char> = chars_of(a);
    let right: Vec<char> = chars_of(b);
    let mut i: usize = 0;
    assert(left@.skip(0) == a@);
    assert(right@.skip(0) == b@);
    while i < left.len() && i < right.len() && left[i] == right[i]
        invariant
            i <= left.len(),
            i <= right.len(),
            lex_less(a@, b@) == lex_less(left@.skip(i as int), right@.skip(i as int)),
        decreases left.len() - i,
    {
        assert(left@.skip(i as int).drop_first() == left@.skip(i + 1));
        assert(right@.skip(i as int).drop_first() == right@.skip(i + 1));
        i = i + 1;
    }
    if i >= right.len() {
        false
    } else if i >= left.len() {
        true
    } else {
        left[i] < right[i]
    }
}

/// Lexicographic order is irreflexive, total on distinct texts and transitive.
pub proof fn lemma_lex_less_total(a: Seq<char>, b: Seq<char>)
    ensures
        !lex_less(a, a),
        !(lex_less(a, b) && lex_less(b, a)),
        lex_less(a, b) || lex_less(b, a) || a == b,
    decreases a.len(),
{
    if a.len() > 0 {
        lemma_lex_less_total(a.drop_first(), a.drop_first());
        if b.len() > 0 {
            lemma_lex_less_total(a.drop_first(), b.drop_first());
            if a[0] == b[0] && a.drop_first() == b.drop_first() {
                assert(a == seq![a[0]] + a.drop_first());
                assert(b == seq![b[0]] + b.drop_first());
            }
        }
    } else if b.len() == 0 {
        assert(a == b);
    }
}

/// Lexicographic order is transitive.
pub proof fn lemma_lex_less_transitive(a: Seq<char>, b: Seq<char>, c: Seq<char>)
    requires
        lex_less(a, b),
        lex_less(b, c),
    ensures
        lex_less(a, c),
    decreases a.len(),
{
    if a.len() > 0 && b.len() > 0 && c.len() > 0 && a[0] == b[0] && b[0] == c[0] {
        lemma_lex_less_transitive(a.drop_first(), b.drop_first(), c.drop_first());
    }
}

/// True when the text holds the character.
pub fn contains_char(s: &str, wanted: char) -> (r: bool)
    ensures
        r == s@.contains(wanted),
{
    let chars: Vec<char> = chars_of(s);
    let mut i: usize = 0;
    while i < chars.len()
        invariant
            i <= chars.len(),
            chars@ == s@,
            forall|k: int| 0 <= k < i ==> chars@[k] != wanted,
        decreases chars.len() - i,
    {
        if chars[i] == wanted {
            assert(s@[i as int] == wanted);
            return true;
        }
        i = i + 1;
    }
    false
}

/// True when `s` begins with `prefix`.
pub open spec fn begins_with(s: Seq<char>, prefix: Seq<char>) -> bool {
    prefix.len() <= s.len() && s.take(prefix.len() as int) == prefix
}

/// True when `s` begins with `prefix`.
pub fn starts_with(s: &str, prefix: &str) -> (r: bool)
    ensures
        r == begins_with(s@, prefix@),
{
    let chars: Vec<char> = chars_of(s);
    let wanted: Vec<char> = chars_of(prefix);
    if wanted.len() > chars.len() {
        return false;
    }
    let mut i: usize = 0;
    while i < wanted.len()
        invariant
            i <= wanted.len() <= chars.len(),
            chars@ == s@,
            wanted@ == prefix@,
            forall|k: int| 0 <= k < i ==> chars@[k] == wanted@[k],
        decreases wanted.len() - i,
    {
        if chars[i] != wanted[i] {
            assert(s@.take(prefix@.len() as int)[i as int] != prefix@[i as int]);
            return false;
        }
        i = i + 1;
    }
    assert(s@.take(prefix@.len() as int) == prefix@);
    true
}

/// The text with every occurrence of a pattern replaced, found from left to right and without
/// looking again at what was put in.
pub open spec fn replaced(s: Seq<char>, pattern: Seq<char>, with: Seq<char>) -> Seq<char>
    decreases s.len(),
{
    if s.len() == 0 || pattern.len() == 0 {
        s
    } else if begins_with(s, pattern) {
        with + replaced(s.skip(pattern.len() as int), pattern, with)
    } else {
        seq![s[0]] + replaced(s.skip(1), pattern, with)
    }
}

/// The text with every occurrence of a pattern replaced.
pub fn replace_all(s: &str, pattern: &str, with: &str) -> (r: String)
    requires
        pattern@.len() > 0,
    ensures
        r@ == replaced(s@, pattern@, with@),
{
    let chars: Vec<char> = chars_of(s);
    let wanted: Vec<char> = chars_of(pattern);
    let mut out: String = String::new();
    let mut i: usize = 0;
    assert(s@.skip(0) == s@);
    assert(out@ + replaced(s@, pattern@, with@) == replaced(s@, pattern@, with@));
    while i < chars.len()
        invariant
            i <= chars.len(),
            chars@ == s@,
            wanted@ == pattern@,
            wanted@.len() > 0,
            out@ + replaced(s@.skip(i as int), pattern@, with@) == replaced(s@, pattern@, with@),
        decreases chars.len() - i,
    {
        let ghost rest = s@.skip(i as int);
        let mut matched: bool = wanted.len() <= chars.len() - i;
        let mut k: usize = 0;
        while matched && k < wanted.len()
            invariant
                i < chars.len(),
                k <= wanted.len(),
                matched ==> wanted.len() <= chars.len() - i,
                chars@ == s@,
                wanted@ == pattern@,
                rest == s@.skip(i as int),
                matched ==> forall|j: int| 0 <= j < k ==> rest[j] == pattern@[j],
                !matched ==> !begins_with(rest, pattern@),
            decreases wanted.len() - k + (if matched { 1int } else { 0int }),
        {
            if chars[i + k] != wanted[k] {
                matched = false;
                proof {
                    assert(rest[k as int] != pattern@[k as int]);
                    if begins_with(rest, pattern@) {
                        assert(rest.take(pattern@.len() as int)[k as int] == pattern@[k as int]);
                    }
                }
            } else {
                k = k + 1;
            }
        }
        if matched {
            proof {
                assert(rest.take(pattern@.len() as int) == pattern@);
                assert(rest.skip(pattern@.len() as int) == s@.skip(i + wanted.len()));
                assert(out@ + (with@ + replaced(s@.skip(i + wanted.len()), pattern@, with@)) == (out@ + with@)
                    + replaced(s@.skip(i + wanted.len()), pattern@, with@));
            }
            out.append(with);
            i = i + wanted.len();
        } else {
            proof {
                assert(rest.skip(1) == s@.skip(i + 1));
                assert(out@ + (seq![s@[i as int]] + replaced(s@.skip(i + 1), pattern@, with@)) == out@.push(
                    s@[i as int],
                ) + replaced(s@.skip(i + 1), pattern@, with@));
            }
            out.push(chars[i]);
            i = i + 1;
        }
    }
    assert(s@.skip(i as int).len() == 0);
    assert(out@ + replaced(s@.skip(i as int), pattern@, with@) == out@);
    out
}

/// The place of the first occurrence of a character.
pub open spec fn find_char(s: Seq<char>, wanted: char) -> Option<int>
    decreases s.len(),
{
    if s.len() == 0 {
        None
    } else if s[0] == wanted {
        Some(0)
    } else {
        match find_char(s.skip(1), wanted) {
            Some(at) => Some(at + 1),
            None => None,
        }
    }
}

/// The place, at or after `from`, of the first occurrence of a character.
pub fn find_from(chars: &Vec<char>, from: usize, wanted: char) -> (r: Option<usize>)
    requires
        from <= chars.len(),
    ensures
        match r {
            Some(at) => from <= at < chars.len() && chars@[at as int] == wanted && find_char(
                chars@.skip(from as int),
                wanted,
            ) == Some(at - from),
            None => find_char(chars@.skip(from as int), wanted) is None,
        },
{
    let mut i: usize = from;
    while i < chars.len()
        invariant
            from <= i <= chars.len(),
            find_char(chars@.skip(from as int), wanted) == (match find_char(chars@.skip(i as int), wanted) {
                Some(at) => Some(at + i - from),
                None => None,
            }),
        decreases chars.len() - i,
    {
        if chars[i] == wanted {
            return Some(i);
        }
        assert(chars@.skip(i as int).skip(1) == chars@.skip(i + 1));
        i = i + 1;
    }
    None
}

/// A text without the white space at its beginning.
pub open spec fn trim_front(s: Seq<char>) -> Seq<char>
    decreases s.len(),
{
    if s.len() > 0 && is_space(s[0]) {
        trim_front(s.drop_first())
    } else {
        s
    }
}

/// A text without the white space at its end.
pub open spec fn trim_back(s: Seq<char>) -> Seq<char>
    decreases s.len(),
{
    if s.len() > 0 && is_space(s.last()) {
        trim_back(s.drop_last())
    } else {
        s
    }
}

/// A text without the white space at either end.
pub open spec fn trimmed(s: Seq<char>) -> Seq<char> {
    trim_back(trim_front(s))
}

/// A text without the white space at either end.
pub fn trim(s: &str) -> (r: String)
    ensures
        r@ == trimmed(s@),
{
    let chars: Vec<char> = chars_of(s);
    let mut from: usize = 0;
    assert(s@.subrange(0, s@.len() as int) == s@);
    while from < chars.len() && space(chars[from])
        invariant
            from <= chars.len(),
            chars@ == s@,
            trim_front(s@) == trim_front(s@.subrange(from as int, s@.len() as int)),
        decreases chars.len() - from,
    {
        assert(s@.subrange(from as int, s@.len() as int).drop_first() == s@.subrange(from + 1, s@.len() as int));
        from = from + 1;
    }
    let mut to: usize = chars.len();
    while to > from && space(chars[to - 1])
        invariant
            from <= to <= chars.len(),
            chars@ == s@,
            trim_back(s@.subrange(from as int, s@.len() as int)) == trim_back(s@.subrange(from as int, to as int)),
        decreases to,
    {
        assert(s@.subrange(from as int, to as int).drop_last() == s@.subrange(from as int, to - 1));
        to = to - 1;
    }
    text_between(&chars, from, to)
}

/// The number that a run of decimal digits writes.
pub open spec fn numeral(digits: Seq<char>) -> nat
    decreases digits.len(),
{
    if digits.len() == 0 {
        0
    } else {
        numeral(digits.drop_last()) * 10 + (digits.last() as u32 - '0' as u32) as nat
    }
}

/// The digits of a text behind an optional plus sign.
pub open spec fn unsigned_digits(s: Seq<char>) -> Seq<char> {
    if s.len() > 0 && s[0] == '+' {
        s.drop_first()
    } else {
        s
    }
}

/// The number of 64 bits that a text writes in decimal digits, behind an optional plus sign.
pub open spec fn unsigned_number(s: Seq<char>) -> Option<u64> {
    let digits = unsigned_digits(s);
    if digits.len() > 0 && (forall|i: int| 0 <= i < digits.len() ==> is_digit(#[trigger] digits[i])) && numeral(digits)
        <= u64::MAX {
        Some(numeral(digits) as u64)
    } else {
        None
    }
}

/// Reads a number of 64 bits in decimal digits, behind an optional plus sign.
pub fn parse_unsigned(s: &str) -> (r: Option<u64>)
    ensures
        r == unsigned_number(s@),
{
    let chars: Vec<char> = chars_of(s);
    let from: usize = if chars.len() > 0 && chars[0] == '+' {
        1
    } else {
        0
    };
    let ghost digits = unsigned_digits(s@);
    assert(digits == s@.subrange(from as int, s@.len() as int));
    if chars.len() == from {
        return None;
    }
    let mut value: u64 = 0;
    let mut i: usize = from;
    assert(digits.take(0) =~= Seq::empty());
    let mut overflow: bool = false;
    while i < chars.len()
        invariant
            from <= i <= chars.len(),
            chars@ == s@,
            digits == s@.subrange(from as int, s@.len() as int),
            digits == unsigned_digits(s@),
            forall|k: int| 0 <= k < i - from ==> is_digit(#[trigger] digits[k]),
            overflow == (numeral(digits.take(i - from)) > u64::MAX),
            !overflow ==> value == numeral(digits.take(i - from)),
        decreases chars.len() - i,
    {
        let c: char = chars[i];
        assert(digits[i - from] == c);
        if !('0' <= c && c <= '9') {
            assert(!is_digit(digits[i - from]));
            return None;
        }
        assert(is_digit(digits[i - from]));
        assert(digits.take(i + 1 - from).drop_last() == digits.take(i - from));
        let digit: u64 = ((c as u32) - ('0' as u32)) as u64;
        if !overflow {
            match value.checked_mul(10) {
                Some(shifted) => match shifted.checked_add(digit) {
                    Some(next) => {
                        value = next;
                    },
                    None => {
                        overflow = true;
                    },
                },
                None => {
                    overflow = true;
                },
            }
        }
        i = i + 1;
    }
    assert(digits.take(digits.len() as int) == digits);
    if overflow {
        None
    } else {
        Some(value)
    }
}

/// A text without a prefix that it begins with.
pub open spec fn without_prefix(s: Seq<char>, prefix: Seq<char>) -> Option<Seq<char>> {
    if begins_with(s, prefix) {
        Some(s.skip(prefix.len() as int))
    } else {
        None
    }
}

/// A text without a prefix that it begins with.
pub fn strip_prefix(s: &str, prefix: &str) -> (r: Option<String>)
    ensures
        opt_view(r) == without_prefix(s@, prefix@),
{
    if starts_with(s, prefix) {
        let chars: Vec<char> = chars_of(s);
        let n: usize = prefix.unicode_len();
        let rest: String = text_between(&chars, n, chars.len());
        assert(rest@ == s@.skip(prefix@.len() as int));
        Some(rest)
    } else {
        None
    }
}

/// Texts are ordered as in a dictionary: by the first character in which they differ, and a text before those
/// that go on after it.
pub proof fn law_texts_are_ordered_as_in_a_dictionary(front: Seq<char>, c: char, d: char, a: Seq<char>, b: Seq<char>)
    ensures
        c < d ==> lex_less(front + seq![c] + a, front + seq![d] + b),
        c > d ==> !lex_less(front + seq![c] + a, front + seq![d] + b),
        lex_less(front, front + seq![c] + a),
        !lex_less(front + seq![c] + a, front),
    decreases front.len(),
{
    let one = front + seq![c] + a;
    let two = front + seq![d] + b;
    if front.len() > 0 {
        law_texts_are_ordered_as_in_a_dictionary(front.drop_first(), c, d, a, b);
        assert(one.drop_first() =~= front.drop_first() + seq![c] + a);
        assert(two.drop_first() =~= front.drop_first() + seq![d] + b);
        assert(one[0] == front[0] && two[0] == front[0]);
    } else {
        assert(one[0] == c && two[0] == d);
    }
}

proof fn lemma_numeral_of_decimal(n: nat)
    ensures
        numeral(decimal(n)) == n,
        decimal(n).len() > 0,
        forall|i: int| 0 <= i < decimal(n).len() ==> is_digit(#[trigger] decimal(n)[i]),
    decreases n,
{
    reveal_with_fuel(numeral, 2);
    if n >= 10 {
        lemma_numeral_of_decimal(n / 10);
        assert(decimal(n).drop_last() =~= decimal(n / 10));
        assert(decimal(n).last() == digit_char(n % 10));
    } else {
        assert(decimal(n).drop_last() =~= Seq::empty());
    }
}

/// A number that is written is read as the same number.
pub proof fn law_numbers_are_read_as_written(n: u64)
    ensures
        unsigned_number(decimal(n as nat)) == Some(n),
        unsigned_number(seq!['+'] + decimal(n as nat)) == Some(n),
{
    let digits = decimal(n as nat);
    lemma_numeral_of_decimal(n as nat);
    assert(is_digit(digits[0]));
    assert((seq!['+'] + digits).drop_first() =~= digits);
}

/// What is trimmed off are the blanks around a text, all of them and nothing else.
pub proof fn law_blanks_around_are_trimmed(front: Seq<char>, s: Seq<char>, back: Seq<char>)
    requires
        forall|i: int| 0 <= i < front.len() ==> is_space(#[trigger] front[i]),
        forall|i: int| 0 <= i < back.len() ==> is_space(#[trigger] back[i]),
        s.len() > 0,
        !is_space(s[0]),
        !is_space(s[s.len() - 1]),
    ensures
        trimmed(front + s + back) == s,
        trimmed(front).len() == 0,
{
    lemma_trim_front(front, s + back);
    assert(front + s + back =~= front + (s + back));
    lemma_trim_back(s, back);
    lemma_trim_front(front, Seq::empty());
    assert(front + Seq::<char>::empty() =~= front);
}

proof fn lemma_trim_front(front: Seq<char>, rest: Seq<char>)
    requires
        forall|i: int| 0 <= i < front.len() ==> is_space(#[trigger] front[i]),
        rest.len() > 0 ==> !is_space(rest[0]),
    ensures
        trim_front(front + rest) == rest,
    decreases front.len(),
{
    if front.len() > 0 {
        assert((front + rest).drop_first() =~= front.drop_first() + rest);
        assert((front + rest)[0] == front[0]);
        lemma_trim_front(front.drop_first(), rest);
    } else {
        assert(front + rest =~= rest);
    }
}

proof fn lemma_trim_back(s: Seq<char>, back: Seq<char>)
    requires
        forall|i: int| 0 <= i < back.len() ==> is_space(#[trigger] back[i]),
        s.len() > 0,
        !is_space(s[s.len() - 1]),
    ensures
        trim_back(s + back) == s,
    decreases back.len(),
{
    if back.len() > 0 {
        assert((s + back).drop_last() =~= s + back.drop_last());
        assert((s + back).last() == back[back.len() - 1]);
        lemma_trim_back(s, back.drop_last());
    } else {
        assert(s + back =~= s);
    }
}

/// Words stand between separators: those of two texts with a separator between them are those of the one and
/// then those of the other, and a text without a separator is one word.
pub proof fn law_words_stand_between_separators(a: Seq<char>, c: char, b: Seq<char>, sep: Separator)
    requires
        sep.parts(c),
    ensures
        words(a + seq![c] + b, sep) == words(a, sep) + words(b, sep),
        a.len() > 0 && (forall|i: int| 0 <= i < a.len() ==> !sep.parts(#[trigger] a[i])) ==> words(a, sep) == seq![a],
{
    lemma_runs_of_both(a, c, b, sep);
    assert(words(a + seq![c] + b, sep) =~= words(a, sep) + words(b, sep));
    if a.len() > 0 && (forall|i: int| 0 <= i < a.len() ==> !sep.parts(#[trigger] a[i])) {
        lemma_one_word(a, sep);
        assert(words(a, sep) =~= seq![a]);
    }
}

proof fn lemma_runs_of_both(a: Seq<char>, c: char, b: Seq<char>, sep: Separator)
    requires
        sep.parts(c),
    ensures
        word_runs(a + seq![c] + b, sep).0 == words(a, sep) + word_runs(b, sep).0,
        word_runs(a + seq![c] + b, sep).1 == word_runs(b, sep).1,
    decreases b.len(),
{
    let whole = a + seq![c] + b;
    if b.len() == 0 {
        assert(whole.drop_last() =~= a);
        assert(whole.last() == c);
        assert(words(a, sep) + word_runs(b, sep).0 =~= words(a, sep));
    } else {
        lemma_runs_of_both(a, c, b.drop_last(), sep);
        assert(whole.drop_last() =~= a + seq![c] + b.drop_last());
        assert(whole.last() == b.last());
        assert(word_runs(whole, sep).0 =~= words(a, sep) + word_runs(b, sep).0);
    }
}

proof fn lemma_one_word(a: Seq<char>, sep: Separator)
    requires
        forall|i: int| 0 <= i < a.len() ==> !sep.parts(#[trigger] a[i]),
    ensures
        word_runs(a, sep) == (Seq::<Seq<char>>::empty(), a),
    decreases a.len(),
{
    if a.len() > 0 {
        lemma_one_word(a.drop_last(), sep);
        assert(a.last() == a[a.len() - 1]);
        assert(a.drop_last().push(a.last()) =~= a);
    } else {
        assert(a =~= Seq::empty());
    }
}

} // verus!
