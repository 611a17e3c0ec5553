//! Slash-separated paths as text: components, joining, stems and suffixes.
use crate::text;
use crate::text::Separator;
use vstd::prelude::*;

verus! {

/// The parts of a path that are not the current directory.
pub open spec fn without_dots(parts: Seq<Seq<char>>) -> Seq<Seq<char>>
    decreases parts.len(),
{
    if parts.len() == 0 {
        parts
    } else if parts.last() == "."@ {
        without_dots(parts.drop_last())
    } else {
        without_dots(parts.drop_last()).push(parts.last())
    }
}

/// The components of a path: a slash for the root, a dot where the path begins with the current
/// directory, and the parts between slashes, in which later dots and repeated slashes have no
/// meaning.
pub open spec fn components(path: Seq<char>) -> Seq<Seq<char>> {
    let parts = text::words(path, Separator::Slash);
    let rest = without_dots(parts);
    if path.len() > 0 && path[0] == '/' {
        seq!["/"@] + rest
    } else if parts.len() > 0 && parts[0] == "."@ {
        seq!["."@] + rest
    } else {
        rest
    }
}

/// The components of a path.
pub fn components_of(path: &str) -> (out: Vec<String>)
    ensures
        text::views(out@) == components(path@),
{
    let parts: Vec<String> = text::words_of(path, Separator::Slash);
    let chars: Vec<char> = text::chars_of(path);
    let ghost all = text::words(path@, Separator::Slash);
    assert(text::views(parts@).len() == parts@.len());
    let mut out: Vec<String> = Vec::new();
    let ghost mut head: Seq<Seq<char>> = Seq::empty();
    if chars.len() > 0 && chars[0] == '/' {
        out.push("/".to_owned());
        proof {
            head = seq!["/"@];
        }
    } else if parts.len() > 0 && text::same(parts[0].as_str(), ".") {
        assert(all[0] == parts@[0]@);
        out.push(".".to_owned());
        proof {
            head = seq!["."@];
        }
    } else {
        assert(parts@.len() > 0 ==> all[0] == parts@[0]@);
    }
    assert(components(path@) == head + without_dots(all));
    assert(text::views(out@) == head);
    assert(head + without_dots(all.take(0)) == head);
    let mut i: usize = 0;
    while i < parts.len()
        invariant
            i <= parts.len(),
            all == text::views(parts@),
            text::views(out@) == head + without_dots(all.take(i as int)),
        decreases parts.len() - i,
    {
        proof {
            assert(all.take(i + 1).drop_last() == all.take(i as int));
            assert(all.take(i + 1).last() == parts@[i as int]@);
        }
        if !text::same(parts[i].as_str(), ".") {
            let ghost before = out@;
            let part: String = parts[i].clone();
            out.push(part);
            assert(text::views(out@) == text::views(before).push(part@));
            assert(head + without_dots(all.take(i as int)).push(part@) == (head + without_dots(
                all.take(i as int),
            )).push(part@));
        }
        i = i + 1;
    }
    assert(all.take(all.len() as int) == all);
    out
}

/// True of a component that names an entry of a directory.
pub open spec fn is_entry(component: Seq<char>) -> bool {
    component != "/"@ && component != "."@ && component != ".."@
}

/// True of a path that leads to a place below wherever it starts: it is not empty and every
/// component names an entry.
pub open spec fn is_safe_relative(path: Seq<char>) -> bool {
    &&& path.len() > 0
    &&& forall|i: int| 0 <= i < components(path).len() ==> is_entry(#[trigger] components(path)[i])
}

/// True of a path that leads to a place below wherever it starts.
pub fn safe_relative(path: &str) -> (r: bool)
    ensures
        r == is_safe_relative(path@),
{
    if path.is_empty() {
        return false;
    }
    let parts: Vec<String> = components_of(path);
    let ghost all = components(path@);
    assert(all.len() == parts@.len());
    let mut i: usize = 0;
    while i < parts.len()
        invariant
            i <= parts.len(),
            all == components(path@),
            all == text::views(parts@),
            forall|k: int| 0 <= k < i ==> is_entry(#[trigger] all[k]),
        decreases parts.len() - i,
    {
        assert(all[i as int] == parts@[i as int]@);
        if text::same(parts[i].as_str(), "/") || text::same(parts[i].as_str(), ".") || text::same(
            parts[i].as_str(),
            "..",
        ) {
            assert(!is_entry(all[i as int]));
            return false;
        }
        i = i + 1;
    }
    true
}

/// True when the first components of one path are those of the other.
pub open spec fn leads_into(path: Seq<char>, base: Seq<char>) -> bool {
    &&& components(base).len() <= components(path).len()
    &&& components(path).take(components(base).len() as int) == components(base)
}

/// True when the first components of `path` are those of `base`.
pub fn starts_with(path: &str, base: &str) -> (r: bool)
    ensures
        r == leads_into(path@, base@),
{
    let long: Vec<String> = components_of(path);
    let short: Vec<String> = components_of(base);
    let ghost all = components(path@);
    let ghost prefix = components(base@);
    assert(all.len() == long@.len() && prefix.len() == short@.len());
    if short.len() > long.len() {
        return false;
    }
    let mut i: usize = 0;
    while i < short.len()
        invariant
            i <= short.len() <= long.len(),
            all == text::views(long@),
            prefix == text::views(short@),
            all == components(path@),
            prefix == components(base@),
            forall|k: int| 0 <= k < i ==> all[k] == prefix[k],
        decreases short.len() - i,
    {
        assert(all[i as int] == long@[i as int]@);
        assert(prefix[i as int] == short@[i as int]@);
        if !text::same(long[i].as_str(), short[i].as_str()) {
            assert(all.take(prefix.len() as int)[i as int] != prefix[i as int]);
            return false;
        }
        i = i + 1;
    }
    assert(all.take(prefix.len() as int) == prefix);
    true
}

/// True of a path that begins at the root.
pub open spec fn is_absolute(path: Seq<char>) -> bool {
    path.len() > 0 && path[0] == '/'
}

/// True of a path that begins at the root.
pub fn absolute(path: &str) -> (r: bool)
    ensures
        r == is_absolute(path@),
{
    let chars: Vec<char> = text::chars_of(path);
    chars.len() > 0 && chars[0] == '/'
}

/// `next` taken from `base`: an absolute path replaces the base, any other follows it behind one
/// slash.
pub open spec fn join_path(base: Seq<char>, next: Seq<char>) -> Seq<char> {
    if is_absolute(next) {
        next
    } else if base.len() == 0 || base.last() == '/' {
        base + next
    } else {
        base.push('/') + next
    }
}

/// `next` taken from `base`.
pub fn join(base: &str, next: &str) -> (r: String)
    ensures
        r@ == join_path(base@, next@),
{
    if absolute(next) {
        return next.to_owned();
    }
    let chars: Vec<char> = text::chars_of(base);
    let mut out: String = base.to_owned();
    if chars.len() > 0 && chars[chars.len() - 1] != '/' {
        out.push('/');
    }
    out.append(next);
    out
}

/// The place of the last dot of a name.
pub open spec fn last_dot(name: Seq<char>) -> Option<int>
    decreases name.len(),
{
    if name.len() == 0 {
        None
    } else if name.last() == '.' {
        Some(name.len() - 1)
    } else {
        last_dot(name.drop_last())
    }
}

/// A name's stem and its suffix, parted by its last dot; a name whose only dot is its first
/// character is all stem.
pub open spec fn stem_and_suffix(name: Seq<char>) -> (Seq<char>, Option<Seq<char>>) {
    match last_dot(name) {
        None => (name, None),
        Some(at) => if at == 0 {
            (name, None)
        } else {
            (name.take(at), Some(name.skip(at + 1)))
        },
    }
}

/// A name's stem and its suffix.
pub fn split_name(name: &str) -> (r: (String, Option<String>))
    ensures
        r.0@ == stem_and_suffix(name@).0,
        text::opt_view(r.1) == stem_and_suffix(name@).1,
{
    let chars: Vec<char> = text::chars_of(name);
    let mut i: usize = chars.len();
    assert(name@.take(name@.len() as int) == name@);
    while i > 0
        invariant
            i <= chars.len(),
            chars@ == name@,
            last_dot(name@) == last_dot(name@.take(i as int)),
        decreases i,
    {
        assert(name@.take(i as int).drop_last() == name@.take(i - 1));
        assert(name@.take(i as int).last() == name@[i - 1]);
        if chars[i - 1] == '.' {
            if i == 1 {
                return (name.to_owned(), None);
            }
            let stem: String = text::text_between(&chars, 0, i - 1);
            let suffix: String = text::text_between(&chars, i, chars.len());
            proof {
                assert(chars@.subrange(0, i - 1) == name@.take(i - 1));
                assert(chars@.subrange(i as int, chars.len() as int) == name@.skip(i as int));
            }
            return (stem, Some(suffix));
        }
        i = i - 1;
    }
    (name.to_owned(), None)
}

/// The text without the slashes at its end.
pub open spec fn trim_slashes(s: Seq<char>) -> Seq<char>
    decreases s.len(),
{
    if s.len() > 0 && s.last() == '/' {
        trim_slashes(s.drop_last())
    } else {
        s
    }
}

/// The text without the slashes at its end.
pub fn without_end_slashes(s: &str) -> (r: String)
    ensures
        r@ == trim_slashes(s@),
{
    let chars: Vec<char> = text::chars_of(s);
    let mut i: usize = chars.len();
    assert(s@.take(s@.len() as int) == s@);
    while i > 0 && chars[i - 1] == '/'
        invariant
            i <= chars.len(),
            chars@ == s@,
            trim_slashes(s@) == trim_slashes(s@.take(i as int)),
        decreases i,
    {
        assert(s@.take(i as int).drop_last() == s@.take(i - 1));
        i = i - 1;
    }
    let out: String = text::text_between(&chars, 0, i);
    assert(chars@.subrange(0, i as int) == s@.take(i as int));
    out
}

/// A path without the slashes at its end and the dots between them, which name nothing.
pub open spec fn without_tail(path: Seq<char>) -> Seq<char>
    decreases path.len(),
{
    if path.len() > 0 && path.last() == '/' {
        without_tail(path.drop_last())
    } else if path.len() > 1 && path.last() == '.' && path[path.len() - 2] == '/' {
        without_tail(path.drop_last())
    } else {
        path
    }
}

/// The length of a path without its tail.
fn tail_start(chars: &Vec<char>, end: usize) -> (r: usize)
    requires
        end <= chars.len(),
    ensures
        r <= end,
        without_tail(chars@.take(end as int)) == chars@.take(r as int),
{
    let mut i: usize = end;
    while i > 0 && (chars[i - 1] == '/' || (i > 1 && chars[i - 1] == '.' && chars[i - 2] == '/'))
        invariant
            i <= end <= chars.len(),
            without_tail(chars@.take(end as int)) == without_tail(chars@.take(i as int)),
        decreases i,
    {
        assert(chars@.take(i as int).drop_last() == chars@.take(i - 1));
        i = i - 1;
    }
    i
}

/// The place behind the last slash of a path.
pub open spec fn name_start(path: Seq<char>) -> int
    decreases path.len(),
{
    if path.len() == 0 || path.last() == '/' {
        path.len() as int
    } else {
        name_start(path.drop_last())
    }
}

fn find_name(chars: &Vec<char>, end: usize) -> (r: usize)
    requires
        end <= chars.len(),
    ensures
        r <= end,
        r == name_start(chars@.take(end as int)),
{
    let mut i: usize = end;
    while i > 0 && chars[i - 1] != '/'
        invariant
            i <= end <= chars.len(),
            name_start(chars@.take(end as int)) == name_start(chars@.take(i as int)),
        decreases i,
    {
        assert(chars@.take(i as int).drop_last() == chars@.take(i - 1));
        i = i - 1;
    }
    i
}

/// The name of the entry that a path leads to.
pub open spec fn entry_name(path: Seq<char>) -> Seq<char> {
    without_tail(path).skip(name_start(without_tail(path)))
}

/// The path with its entry's suffix replaced; a path that leads to no named entry stays.
pub open spec fn with_suffix(path: Seq<char>, suffix: Seq<char>) -> Seq<char> {
    let base = without_tail(path);
    let name = entry_name(path);
    if name.len() == 0 || name == "."@ || name == ".."@ {
        path
    } else {
        base.take(name_start(base)) + stem_and_suffix(name).0 + "."@ + suffix
    }
}

/// The path with its entry's suffix replaced.
pub fn replace_suffix(path: &str, suffix: &str) -> (r: String)
    ensures
        r@ == with_suffix(path@, suffix@),
{
    let chars: Vec<char> = text::chars_of(path);
    assert(chars@.take(chars.len() as int) == path@);
    let end: usize = tail_start(&chars, chars.len());
    let start: usize = find_name(&chars, end);
    let ghost base = without_tail(path@);
    let name: String = text::text_between(&chars, start, end);
    assert(name@ == entry_name(path@));
    if start == end || text::same(name.as_str(), ".") || text::same(name.as_str(), "..") {
        return path.to_owned();
    }
    let before: String = text::text_between(&chars, 0, start);
    assert(before@ == base.take(start as int));
    let (stem, _) = split_name(name.as_str());
    text::join4(before.as_str(), stem.as_str(), ".", suffix)
}

/// The suffix of the name that a path leads to.
pub open spec fn suffix_of(path: Seq<char>) -> Option<Seq<char>> {
    let name = entry_name(path);
    if name.len() == 0 || name == "."@ || name == ".."@ {
        None
    } else {
        stem_and_suffix(name).1
    }
}

/// The suffix of the name that a path leads to.
pub fn suffix(path: &str) -> (r: Option<String>)
    ensures
        text::opt_view(r) == suffix_of(path@),
{
    let chars: Vec<char> = text::chars_of(path);
    assert(chars@.take(chars.len() as int) == path@);
    let end: usize = tail_start(&chars, chars.len());
    let start: usize = find_name(&chars, end);
    let name: String = text::text_between(&chars, start, end);
    assert(name@ == entry_name(path@));
    if start == end || text::same(name.as_str(), ".") || text::same(name.as_str(), "..") {
        return None;
    }
    split_name(name.as_str()).1
}

/// The directory that holds the entry a path leads to; the root and the empty path have none.
pub open spec fn parent_of(path: Seq<char>) -> Option<Seq<char>> {
    let base = without_tail(path);
    if base.len() == 0 {
        None
    } else {
        let directory = without_tail(base.take(name_start(base)));
        Some(
            if directory.len() == 0 && is_absolute(path) {
                "/"@
            } else {
                directory
            },
        )
    }
}

/// The directory that holds the entry a path leads to.
pub fn parent(path: &str) -> (r: Option<String>)
    ensures
        text::opt_view(r) == parent_of(path@),
{
    let chars: Vec<char> = text::chars_of(path);
    assert(chars@.take(chars.len() as int) == path@);
    let end: usize = tail_start(&chars, chars.len());
    if end == 0 {
        assert(without_tail(path@).len() == 0);
        return None;
    }
    let start: usize = find_name(&chars, end);
    let ghost base = without_tail(path@);
    let stop: usize = tail_start(&chars, start);
    assert(base.take(start as int) == chars@.take(start as int));
    if stop == 0 && chars[0] == '/' {
        return Some("/".to_owned());
    }
    let out: String = text::text_between(&chars, 0, stop);
    assert(out@ == chars@.take(stop as int));
    Some(out)
}

proof fn lemma_dots_of_both(a: Seq<Seq<char>>, b: Seq<Seq<char>>)
    ensures
        without_dots(a + b) == without_dots(a) + without_dots(b),
    decreases b.len(),
{
    if b.len() == 0 {
        assert(a + b =~= a);
        assert(without_dots(a) + without_dots(b) =~= without_dots(a));
    } else {
        lemma_dots_of_both(a, b.drop_last());
        assert((a + b).drop_last() =~= a + b.drop_last());
        assert((a + b).last() == b.last());
        assert(without_dots(a + b) =~= without_dots(a) + without_dots(b));
    }
}

/// Joining goes on from where the base leads: the steps of the joined path are those of the base and then those of
/// what was joined, unless that begins anew at the root or with a dot. An absolute path takes the base's place.
pub proof fn law_joined_paths_go_on(base: Seq<char>, next: Seq<char>)
    requires
        base.len() > 0,
        next.len() > 0,
    ensures
        next[0] == '/' ==> join_path(base, next) == next,
        next[0] != '/' && (components(next).len() == 0 || components(next)[0] != "."@) ==> components(join_path(base, next))
            == components(base) + components(next),
        next[0] != '/' && (components(next).len() == 0 || components(next)[0] != "."@) ==> leads_into(
            join_path(base, next),
            base,
        ),
{
    if next[0] != '/' && (components(next).len() == 0 || components(next)[0] != "."@) {
        let joined = join_path(base, next);
        let parts = text::words(next, Separator::Slash);
        let own = text::words(base, Separator::Slash);
        let empty = Seq::<char>::empty();
        if base.last() == '/' {
            let front = base.drop_last();
            assert(base =~= front + seq!['/'] + empty);
            assert(joined =~= front + seq!['/'] + next);
            text::law_words_stand_between_separators(front, '/', empty, Separator::Slash);
            text::law_words_stand_between_separators(front, '/', next, Separator::Slash);
            assert(text::words(empty, Separator::Slash) =~= Seq::<Seq<char>>::empty());
            assert(own =~= text::words(front, Separator::Slash));
        } else {
            assert(joined =~= base + seq!['/'] + next);
            text::law_words_stand_between_separators(base, '/', next, Separator::Slash);
        }
        assert(text::words(joined, Separator::Slash) == own + parts);
        lemma_dots_of_both(own, parts);
        assert(joined[0] == base[0]);
        assert(parts.len() == 0 || parts[0] != "."@);
        assert(components(next) == without_dots(parts));
        if own.len() > 0 {
            assert((own + parts)[0] == own[0]);
        } else {
            assert(own + parts =~= parts);
            if base[0] != '/' {
                lemma_words_begin(base);
            }
        }
        assert(components(joined) =~= components(base) + components(next));
        assert(components(joined).take(components(base).len() as int) =~= components(base));
    }
}

proof fn lemma_words_begin(s: Seq<char>)
    requires
        s.len() > 0,
        s[0] != '/',
    ensures
        text::words(s, Separator::Slash).len() > 0,
    decreases s.len(),
{
    if s.len() > 1 {
        lemma_words_begin(s.drop_last());
        assert(s.drop_last()[0] == s[0]);
    } else {
        assert(s.drop_last() =~= Seq::empty());
        assert(s.last() == s[0]);
    }
}

/// A target that is safe stays below any root that it is joined to, and never steps up.
pub proof fn law_safe_targets_stay_below(root: Seq<char>, target: Seq<char>)
    requires
        root.len() > 0,
        is_safe_relative(target),
    ensures
        leads_into(join_path(root, target), root),
        components(join_path(root, target)) == components(root) + components(target),
        forall|i: int| 0 <= i < components(target).len() ==> (#[trigger] components(target)[i]) != ".."@,
        target[0] != '/',
{
    if target[0] == '/' {
        assert(components(target)[0] == "/"@);
        assert(!is_entry(components(target)[0]));
    }
    if components(target).len() > 0 {
        assert(is_entry(components(target)[0]));
    }
    law_joined_paths_go_on(root, target);
}

/// Leading into is an order: every path leads into itself, and what leads into what leads into a place leads
/// into it.
pub proof fn law_leading_into_is_an_order(a: Seq<char>, b: Seq<char>, c: Seq<char>)
    ensures
        leads_into(a, a),
        leads_into(a, b) && leads_into(b, c) ==> leads_into(a, c),
        leads_into(a, b) && leads_into(b, a) ==> components(a) == components(b),
{
    assert(components(a).take(components(a).len() as int) =~= components(a));
    if leads_into(a, b) && leads_into(b, c) {
        let n = components(c).len() as int;
        assert(components(a).take(n) =~= components(b).take(n)) by {
            assert forall|i: int| 0 <= i < n implies components(a)[i] == components(b)[i] by {
                assert(components(a).take(components(b).len() as int)[i] == components(b)[i]);
            }
        }
    }
    if leads_into(a, b) && leads_into(b, a) {
        assert(components(a).take(components(a).len() as int) =~= components(a));
    }
}

proof fn lemma_name_start(directory: Seq<char>, name: Seq<char>)
    requires
        directory.len() == 0 || directory.last() == '/',
        forall|i: int| 0 <= i < name.len() ==> #[trigger] name[i] != '/',
    ensures
        name_start(directory + name) == directory.len(),
    decreases name.len(),
{
    if name.len() > 0 {
        assert((directory + name).drop_last() =~= directory + name.drop_last());
        assert((directory + name).last() == name[name.len() - 1]);
        lemma_name_start(directory, name.drop_last());
    } else {
        assert(directory + name =~= directory);
    }
}

proof fn lemma_last_dot(stem: Seq<char>, suffix: Seq<char>)
    requires
        forall|i: int| 0 <= i < suffix.len() ==> #[trigger] suffix[i] != '.',
    ensures
        last_dot(stem + seq!['.'] + suffix) == Some(stem.len() as int),
    decreases suffix.len(),
{
    let whole = stem + seq!['.'] + suffix;
    if suffix.len() > 0 {
        assert(whole.drop_last() =~= stem + seq!['.'] + suffix.drop_last());
        assert(whole.last() == suffix[suffix.len() - 1]);
        lemma_last_dot(stem, suffix.drop_last());
    } else {
        assert(whole.last() == '.');
    }
}

proof fn lemma_entry(directory: Seq<char>, name: Seq<char>)
    requires
        directory.len() == 0 || directory.last() == '/',
        name.len() > 0,
        name[name.len() - 1] != '.',
        forall|i: int| 0 <= i < name.len() ==> #[trigger] name[i] != '/',
    ensures
        without_tail(directory + name) == directory + name,
        name_start(directory + name) == directory.len(),
        entry_name(directory + name) == name,
        (directory + name).take(directory.len() as int) == directory,
{
    let path = directory + name;
    assert(path.last() == name[name.len() - 1]);
    lemma_name_start(directory, name);
    assert(path.skip(directory.len() as int) =~= name);
    assert(path.take(directory.len() as int) =~= directory);
}

proof fn lemma_stem(stem: Seq<char>, suffix: Seq<char>)
    requires
        stem.len() > 0,
        forall|i: int| 0 <= i < suffix.len() ==> #[trigger] suffix[i] != '.',
    ensures
        stem_and_suffix(stem + seq!['.'] + suffix) == (stem, Some(suffix)),
{
    let name = stem + seq!['.'] + suffix;
    lemma_last_dot(stem, suffix);
    assert(name.take(stem.len() as int) =~= stem);
    assert(name.skip(stem.len() as int + 1) =~= suffix);
}

proof fn lemma_no_slash(stem: Seq<char>, suffix: Seq<char>)
    requires
        forall|i: int| 0 <= i < stem.len() ==> #[trigger] stem[i] != '/',
        forall|i: int| 0 <= i < suffix.len() ==> #[trigger] suffix[i] != '/',
    ensures
        forall|i: int| 0 <= i < (stem + seq!['.'] + suffix).len() ==> #[trigger] (stem + seq!['.'] + suffix)[i] != '/',
{
    let name = stem + seq!['.'] + suffix;
    assert forall|i: int| 0 <= i < name.len() implies #[trigger] name[i] != '/' by {
        if i < stem.len() {
            assert(name[i] == stem[i]);
        } else if i > stem.len() {
            assert(name[i] == suffix[i - stem.len() - 1]);
        }
    }
}

/// A name is what follows the last slash, and its suffix what follows its last dot: another suffix takes the
/// place of that one, and the directory and the stem stay.
pub proof fn law_suffixes_are_replaced(directory: Seq<char>, stem: Seq<char>, suffix: Seq<char>, other: Seq<char>)
    requires
        directory.len() == 0 || directory.last() == '/',
        stem.len() > 0,
        suffix.len() > 0,
        forall|i: int| 0 <= i < stem.len() ==> #[trigger] stem[i] != '/',
        forall|i: int| 0 <= i < suffix.len() ==> #[trigger] suffix[i] != '/' && suffix[i] != '.',
    ensures
        suffix_of(directory + (stem + seq!['.'] + suffix)) == Some(suffix),
        with_suffix(directory + (stem + seq!['.'] + suffix), other) == directory + stem + "."@ + other,
{
    let name = stem + seq!['.'] + suffix;
    lemma_no_slash(stem, suffix);
    assert(name[name.len() - 1] == suffix[suffix.len() - 1]);
    lemma_entry(directory, name);
    lemma_stem(stem, suffix);
    assert("."@.len() == 1) by {
        reveal_strlit(".");
    }
    assert(".."@.len() == 2) by {
        reveal_strlit("..");
    }
    assert(name.len() >= 3);
}

/// The parent of a name in a directory is that directory.
pub proof fn law_parents_are_the_directory(directory: Seq<char>, name: Seq<char>)
    requires
        directory.len() > 0,
        directory.last() != '/',
        directory.last() != '.',
        name.len() > 0,
        name[name.len() - 1] != '.',
        forall|i: int| 0 <= i < name.len() ==> #[trigger] name[i] != '/',
    ensures
        parent_of(join_path(directory, name)) == Some(directory),
{
    let path = join_path(directory, name);
    let front = directory.push('/');
    assert(path == front + name);
    lemma_entry(front, name);
    assert(front.drop_last() =~= directory);
    assert(without_tail(front) == without_tail(directory));
}

} // verus!
