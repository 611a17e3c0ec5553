//! Canonical bundles: mirrors in the order of their names, free of overlaps, under one fingerprint.
use super::config::CanonicalBundle;
use super::config::CanonicalMirror;
use super::config::ConfigError;
use super::schedule;
use crate::path;
use crate::text;
use vstd::prelude::*;
use vstd::utf8::encode_utf8;

verus! {

/// How many of some mirrors, from the first on, have names before the given one.
pub open spec fn place_of(mirrors: Seq<CanonicalMirror>, name: Seq<char>) -> int
    decreases mirrors.len(),
{
    if mirrors.len() == 0 || !text::lex_less(mirrors[0].name(), name) {
        0
    } else {
        1 + place_of(mirrors.skip(1), name)
    }
}

/// True when one of the mirrors has the name.
pub open spec fn has_name(mirrors: Seq<CanonicalMirror>, name: Seq<char>) -> bool {
    exists|i: int| 0 <= i < mirrors.len() && (#[trigger] mirrors[i]).name() == name
}

/// The mirrors with one more at its place; a mirror of the same name gives way.
pub open spec fn with_mirror(mirrors: Seq<CanonicalMirror>, mirror: CanonicalMirror) -> Seq<CanonicalMirror> {
    let place = place_of(mirrors, mirror.name());
    if place < mirrors.len() && mirrors[place].name() == mirror.name() {
        mirrors.update(place, mirror)
    } else {
        mirrors.insert(place, mirror)
    }
}

/// True when the mirrors stand in the order of their names, each name once.
pub open spec fn in_order(mirrors: Seq<CanonicalMirror>) -> bool {
    forall|i: int, j: int|
        0 <= i < j < mirrors.len() ==> text::lex_less((#[trigger] mirrors[i]).name(), (#[trigger] mirrors[j]).name())
}

/// What some files come to: the mirrors they hold, and the errors of single files and of repeated
/// names in the order of the files.
pub open spec fn collected(files: Seq<Result<CanonicalMirror, ConfigError>>) -> (
    Seq<CanonicalMirror>,
    Seq<ConfigError>,
)
    decreases files.len(),
{
    if files.len() == 0 {
        (Seq::empty(), Seq::empty())
    } else {
        let (mirrors, errors) = collected(files.drop_last());
        match files.last() {
            Err(error) => (mirrors, errors.push(error)),
            Ok(mirror) => (
                with_mirror(mirrors, mirror),
                if has_name(mirrors, mirror.name()) {
                    errors.push(ConfigError::DuplicateMirror { name: mirror.document.mirror.name })
                } else {
                    errors
                },
            ),
        }
    }
}

/// True when two mirrors of one node have targets of which one contains the other.
pub open spec fn overlap(first: CanonicalMirror, second: CanonicalMirror) -> bool {
    &&& first.owner_node@ == second.owner_node@
    &&& path::leads_into(first.target(), second.target()) || path::leads_into(second.target(), first.target())
}

/// The overlaps of mirror `i` with the mirrors after it and before `end`.
pub open spec fn overlaps_with(mirrors: Seq<CanonicalMirror>, i: int, end: int) -> Seq<ConfigError>
    decreases end - i,
{
    if end <= i + 1 {
        Seq::empty()
    } else if overlap(mirrors[i], mirrors[end - 1]) {
        overlaps_with(mirrors, i, end - 1).push(
            ConfigError::TargetOverlap {
                node: mirrors[i].owner_node,
                first: mirrors[i].document.mirror.name,
                second: mirrors[end - 1].document.mirror.name,
            },
        )
    } else {
        overlaps_with(mirrors, i, end - 1)
    }
}

/// The overlaps of the first `end` mirrors with the mirrors after them.
pub open spec fn overlaps_upto(mirrors: Seq<CanonicalMirror>, end: int) -> Seq<ConfigError>
    decreases end,
{
    if end <= 0 {
        Seq::empty()
    } else {
        overlaps_upto(mirrors, end - 1) + overlaps_with(mirrors, end - 1, mirrors.len() as int)
    }
}

/// All errors of a bundle.
pub open spec fn bundle_errors(files: Seq<Result<CanonicalMirror, ConfigError>>) -> Seq<ConfigError> {
    let (mirrors, errors) = collected(files);
    errors + overlaps_upto(mirrors, mirrors.len() as int)
}

/// What the fingerprint of a bundle is taken of: name, owner and TOML form of each mirror, each
/// followed by a zero byte.
pub open spec fn bundle_bytes(mirrors: Seq<CanonicalMirror>) -> Seq<u8>
    decreases mirrors.len(),
{
    if mirrors.len() == 0 {
        Seq::empty()
    } else {
        let mirror = mirrors.last();
        bundle_bytes(mirrors.drop_last()) + encode_utf8(mirror.name()) + seq![0u8] + encode_utf8(
            mirror.owner_node@,
        ) + seq![0u8] + encode_utf8(mirror.canonical_toml@) + seq![0u8]
    }
}

proof fn lemma_place(mirrors: Seq<CanonicalMirror>, name: Seq<char>, i: int)
    requires
        0 <= i <= mirrors.len(),
        forall|k: int| 0 <= k < i ==> text::lex_less((#[trigger] mirrors[k]).name(), name),
        i < mirrors.len() ==> !text::lex_less(mirrors[i].name(), name),
    ensures
        place_of(mirrors, name) == i,
    decreases i,
{
    if i > 0 {
        assert(text::lex_less(mirrors[0].name(), name));
        assert forall|k: int| 0 <= k < i - 1 implies text::lex_less(
            (#[trigger] mirrors.skip(1)[k]).name(),
            name,
        ) by {
            assert(mirrors.skip(1)[k] == mirrors[k + 1]);
        }
        lemma_place(mirrors.skip(1), name, i - 1);
    }
}

fn find_place(mirrors: &Vec<CanonicalMirror>, name: &str) -> (r: usize)
    ensures
        r == place_of(mirrors@, name@),
        r <= mirrors.len(),
        forall|k: int| 0 <= k < r ==> text::lex_less((#[trigger] mirrors@[k]).name(), name@),
        r < mirrors.len() ==> !text::lex_less(mirrors@[r as int].name(), name@),
{
    let mut i: usize = 0;
    while i < mirrors.len() && text::less(mirrors[i].document.mirror.name.as_str(), name)
        invariant
            i <= mirrors.len(),
            forall|k: int| 0 <= k < i ==> text::lex_less((#[trigger] mirrors@[k]).name(), name@),
        decreases mirrors.len() - i,
    {
        i = i + 1;
    }
    proof {
        lemma_place(mirrors@, name@, i as int);
    }
    i
}

/// Putting a mirror at its place keeps the order.
proof fn lemma_with_mirror_in_order(mirrors: Seq<CanonicalMirror>, mirror: CanonicalMirror)
    requires
        in_order(mirrors),
        0 <= place_of(mirrors, mirror.name()) <= mirrors.len(),
        forall|k: int|
            0 <= k < place_of(mirrors, mirror.name()) ==> text::lex_less(
                (#[trigger] mirrors[k]).name(),
                mirror.name(),
            ),
        place_of(mirrors, mirror.name()) < mirrors.len() ==> !text::lex_less(
            mirrors[place_of(mirrors, mirror.name())].name(),
            mirror.name(),
        ),
    ensures
        in_order(with_mirror(mirrors, mirror)),
        has_name(mirrors, mirror.name()) <==> (place_of(mirrors, mirror.name()) < mirrors.len() && mirrors[place_of(
            mirrors,
            mirror.name(),
        )].name() == mirror.name()),
{
    let place = place_of(mirrors, mirror.name());
    let name = mirror.name();
    let after = with_mirror(mirrors, mirror);
    assert forall|k: int| place <= k < mirrors.len() implies (#[trigger] mirrors[k]).name() == name && k == place
        || text::lex_less(name, mirrors[k].name()) by {
        text::lemma_lex_less_total(mirrors[place].name(), name);
        text::lemma_lex_less_total(mirrors[k].name(), name);
        if k > place {
            assert(text::lex_less(mirrors[place].name(), mirrors[k].name()));
            if text::lex_less(name, mirrors[place].name()) {
                text::lemma_lex_less_transitive(name, mirrors[place].name(), mirrors[k].name());
            }
        }
    }
    if has_name(mirrors, name) {
        let i = choose|i: int| 0 <= i < mirrors.len() && (#[trigger] mirrors[i]).name() == name;
        text::lemma_lex_less_total(name, name);
        assert(i >= place);
        assert(mirrors[i].name() == name && i == place || text::lex_less(name, mirrors[i].name()));
    }
    if place < mirrors.len() && mirrors[place].name() == name {
        assert forall|i: int, j: int| 0 <= i < j < after.len() implies text::lex_less(
            (#[trigger] after[i]).name(),
            (#[trigger] after[j]).name(),
        ) by {
            assert(text::lex_less(mirrors[i].name(), mirrors[j].name()));
        }
    } else {
        assert forall|i: int, j: int| 0 <= i < j < after.len() implies text::lex_less(
            (#[trigger] after[i]).name(),
            (#[trigger] after[j]).name(),
        ) by {
            let x = if i < place { i } else { i - 1 };
            let y = if j < place { j } else { j - 1 };
            if i != place {
                assert(after[i] == mirrors[x]);
            }
            if j != place {
                assert(after[j] == mirrors[y]);
            }
            if i != place && j != place {
                assert(text::lex_less(mirrors[x].name(), mirrors[y].name()));
            } else if i == place {
                assert(mirrors[y].name() == name && y == place || text::lex_less(name, mirrors[y].name()));
            }
        }
    }
}

/// The mirrors that files come to stand in the order of their names.
pub proof fn law_collected_in_order(files: Seq<Result<CanonicalMirror, ConfigError>>)
    ensures
        in_order(collected(files).0),
    decreases files.len(),
{
    if files.len() > 0 {
        law_collected_in_order(files.drop_last());
        if let Ok(mirror) = files.last() {
            let mirrors = collected(files.drop_last()).0;
            lemma_place_bounds(mirrors, mirror.name());
            lemma_with_mirror_in_order(mirrors, mirror);
        }
    }
}

proof fn lemma_place_bounds(mirrors: Seq<CanonicalMirror>, name: Seq<char>)
    ensures
        0 <= place_of(mirrors, name) <= mirrors.len(),
        forall|k: int|
            0 <= k < place_of(mirrors, name) ==> text::lex_less((#[trigger] mirrors[k]).name(), name),
        place_of(mirrors, name) < mirrors.len() ==> !text::lex_less(mirrors[place_of(mirrors, name)].name(), name),
    decreases mirrors.len(),
{
    if mirrors.len() > 0 && text::lex_less(mirrors[0].name(), name) {
        let rest = mirrors.skip(1);
        lemma_place_bounds(rest, name);
        assert forall|k: int| 0 <= k < place_of(mirrors, name) implies text::lex_less(
            (#[trigger] mirrors[k]).name(),
            name,
        ) by {
            if k > 0 {
                assert(rest[k - 1] == mirrors[k]);
            }
        }
        if place_of(mirrors, name) < mirrors.len() {
            assert(rest[place_of(rest, name)] == mirrors[place_of(mirrors, name)]);
        }
    }
}

fn target_overlap_errors(mirrors: &Vec<CanonicalMirror>) -> (errors: Vec<ConfigError>)
    ensures
        errors@ == overlaps_upto(mirrors@, mirrors@.len() as int),
{
    let mut errors: Vec<ConfigError> = Vec::new();
    let mut i: usize = 0;
    while i < mirrors.len()
        invariant
            i <= mirrors.len(),
            errors@ == overlaps_upto(mirrors@, i as int),
        decreases mirrors.len() - i,
    {
        let mut j: usize = i + 1;
        assert(errors@ == overlaps_upto(mirrors@, i as int) + overlaps_with(mirrors@, i as int, j as int));
        while j < mirrors.len()
            invariant
                i < j <= mirrors.len(),
                errors@ == overlaps_upto(mirrors@, i as int) + overlaps_with(mirrors@, i as int, j as int),
            decreases mirrors.len() - j,
        {
            let first: &CanonicalMirror = &mirrors[i];
            let second: &CanonicalMirror = &mirrors[j];
            if text::same(first.owner_node.as_str(), second.owner_node.as_str()) && (path::starts_with(
                first.document.mirror.target.as_str(),
                second.document.mirror.target.as_str(),
            ) || path::starts_with(
                second.document.mirror.target.as_str(),
                first.document.mirror.target.as_str(),
            )) {
                let ghost before = errors@;
                errors.push(
                    ConfigError::TargetOverlap {
                        node: first.owner_node.clone(),
                        first: first.document.mirror.name.clone(),
                        second: second.document.mirror.name.clone(),
                    },
                );
                assert(errors@ == overlaps_upto(mirrors@, i as int) + overlaps_with(
                    mirrors@,
                    i as int,
                    j as int,
                ).push(errors@.last()));
            }
            j = j + 1;
        }
        i = i + 1;
    }
    errors
}

fn push_text(out: &mut Vec<u8>, value: &str)
    ensures
        final(out)@ == old(out)@ + encode_utf8(value@),
{
    let bytes: &[u8] = value.as_bytes();
    let ghost start = out@;
    let ghost all = encode_utf8(value@);
    let mut i: usize = 0;
    assert(start + all.take(0) == start);
    while i < bytes.len()
        invariant
            i <= bytes.len(),
            bytes@ == all,
            out@ == start + all.take(i as int),
        decreases bytes.len() - i,
    {
        out.push(bytes[i]);
        assert(start + all.take(i + 1) == (start + all.take(i as int)).push(all[i as int]));
        i = i + 1;
    }
    assert(all.take(all.len() as int) == all);
}

fn bytes_of(mirrors: &Vec<CanonicalMirror>) -> (out: Vec<u8>)
    ensures
        out@ == bundle_bytes(mirrors@),
{
    let mut out: Vec<u8> = Vec::new();
    let mut i: usize = 0;
    while i < mirrors.len()
        invariant
            i <= mirrors.len(),
            out@ == bundle_bytes(mirrors@.take(i as int)),
        decreases mirrors.len() - i,
    {
        proof {
            assert(mirrors@.take(i + 1).drop_last() == mirrors@.take(i as int));
            assert(mirrors@.take(i + 1).last() == mirrors@[i as int]);
        }
        let ghost start = out@;
        let mirror: &CanonicalMirror = &mirrors[i];
        push_text(&mut out, mirror.document.mirror.name.as_str());
        out.push(0);
        push_text(&mut out, mirror.owner_node.as_str());
        out.push(0);
        push_text(&mut out, mirror.canonical_toml.as_str());
        out.push(0);
        assert(out@ == start + encode_utf8(mirror.name()) + seq![0u8] + encode_utf8(mirror.owner_node@) + seq![0u8]
            + encode_utf8(mirror.canonical_toml@) + seq![0u8]);
        i = i + 1;
    }
    assert(mirrors@.take(mirrors@.len() as int) == mirrors@);
    out
}

/// Makes a bundle of its files, each given as the mirror that it holds or as its error: every error
/// of the files, every repeated name and every overlap, or the mirrors under one fingerprint.
pub fn canonicalize_bundle(files: Vec<Result<CanonicalMirror, ConfigError>>) -> (r: Result<
    CanonicalBundle,
    Vec<ConfigError>,
>)
    ensures
        match r {
            Ok(bundle) => {
                &&& bundle_errors(files@).len() == 0
                &&& bundle.mirrors@ == collected(files@).0
                &&& in_order(bundle.mirrors@)
                &&& bundle.bundle_hash@ == schedule::fingerprint(bundle_bytes(bundle.mirrors@))
            },
            Err(errors) => errors@ == bundle_errors(files@) && errors@.len() > 0,
        },
{
    let ghost all = files@;
    let mut mirrors: Vec<CanonicalMirror> = Vec::new();
    let mut errors: Vec<ConfigError> = Vec::new();
    for file in it: files
        invariant
            it.seq() == all,
            collected(all.take(it.index())) == (mirrors@, errors@),
    {
        proof {
            assert(all.take(it.index() + 1).drop_last() == all.take(it.index()));
            assert(all.take(it.index() + 1).last() == file);
            law_collected_in_order(all.take(it.index()));
        }
        match file {
            Err(error) => {
                errors.push(error);
            },
            Ok(mirror) => {
                let place: usize = find_place(&mirrors, mirror.document.mirror.name.as_str());
                proof {
                    lemma_with_mirror_in_order(mirrors@, mirror);
                }
                if place < mirrors.len() && text::same(
                    mirrors[place].document.mirror.name.as_str(),
                    mirror.document.mirror.name.as_str(),
                ) {
                    errors.push(ConfigError::DuplicateMirror { name: mirror.document.mirror.name.clone() });
                    mirrors.set(place, mirror);
                } else {
                    mirrors.insert(place, mirror);
                }
            },
        }
    }
    assert(all.take(all.len() as int) == all);
    let ghost single = errors@;
    let mut overlaps: Vec<ConfigError> = target_overlap_errors(&mirrors);
    errors.append(&mut overlaps);
    if errors.len() > 0 {
        return Err(errors);
    }
    proof {
        law_collected_in_order(all);
    }
    let bytes: Vec<u8> = bytes_of(&mirrors);
    let bundle_hash: String = schedule::fingerprint_of(bytes.as_slice());
    Ok(CanonicalBundle { mirrors, bundle_hash })
}

proof fn lemma_no_overlap(mirrors: Seq<CanonicalMirror>, i: int, j: int, end: int)
    requires
        0 <= i < j < mirrors.len(),
        i < end <= mirrors.len(),
        overlaps_upto(mirrors, end).len() == 0,
    ensures
        !overlap(mirrors[i], mirrors[j]),
    decreases end,
{
    assert(overlaps_upto(mirrors, end).len() == overlaps_upto(mirrors, end - 1).len() + overlaps_with(
        mirrors,
        end - 1,
        mirrors.len() as int,
    ).len());
    if i < end - 1 {
        lemma_no_overlap(mirrors, i, j, end - 1);
    } else {
        lemma_no_overlap_with(mirrors, i, j, mirrors.len() as int);
    }
}

proof fn lemma_no_overlap_with(mirrors: Seq<CanonicalMirror>, i: int, j: int, end: int)
    requires
        0 <= i < j < end <= mirrors.len(),
        overlaps_with(mirrors, i, end).len() == 0,
    ensures
        !overlap(mirrors[i], mirrors[j]),
    decreases end,
{
    if j < end - 1 {
        lemma_no_overlap_with(mirrors, i, j, end - 1);
    }
}

/// In a bundle without errors no two mirrors of one node have targets of which one contains the
/// other.
pub proof fn law_targets_of_a_node_are_apart(files: Seq<Result<CanonicalMirror, ConfigError>>, i: int, j: int)
    requires
        bundle_errors(files).len() == 0,
        0 <= i < j < collected(files).0.len(),
    ensures
        !overlap(collected(files).0[i], collected(files).0[j]),
{
    let mirrors = collected(files).0;
    assert(bundle_errors(files).len() == collected(files).1.len() + overlaps_upto(
        mirrors,
        mirrors.len() as int,
    ).len());
    lemma_no_overlap(mirrors, i, j, mirrors.len() as int);
}

/// True when every file holds a mirror and no two of them one of the same name.
spec fn distinct(files: Seq<Result<CanonicalMirror, ConfigError>>) -> bool {
    &&& forall|i: int| 0 <= i < files.len() ==> (#[trigger] files[i]) is Ok
    &&& forall|i: int, j: int|
        0 <= i < j < files.len() ==> (#[trigger] files[i])->Ok_0.name() != (#[trigger] files[j])->Ok_0.name()
}

/// Files come to no error exactly when they hold distinct mirrors, and then to those mirrors.
proof fn lemma_collected(files: Seq<Result<CanonicalMirror, ConfigError>>)
    ensures
        collected(files).1.len() == 0 <==> distinct(files),
        distinct(files) ==> forall|mirror: CanonicalMirror|
            #![trigger collected(files).0.contains(mirror)]
            collected(files).0.contains(mirror) <==> files.contains(Ok(mirror)),
    decreases files.len(),
{
    if files.len() > 0 {
        let rest = files.drop_last();
        lemma_collected(rest);
        let mirrors = collected(rest).0;
        assert forall|i: int| 0 <= i < rest.len() implies #[trigger] rest[i] == files[i] by {}
        if distinct(files) {
            assert(distinct(rest));
        }
        if distinct(rest) && files.last() is Ok {
            let last = files.last()->Ok_0;
            law_collected_in_order(rest);
            lemma_place_bounds(mirrors, last.name());
            lemma_with_mirror_in_order(mirrors, last);
            if has_name(mirrors, last.name()) {
                let k = choose|k: int| 0 <= k < mirrors.len() && (#[trigger] mirrors[k]).name() == last.name();
                assert(mirrors.contains(mirrors[k]));
                let i = choose|i: int| 0 <= i < rest.len() && rest[i] == Ok::<CanonicalMirror, ConfigError>(mirrors[k]);
                assert(files[i]->Ok_0.name() == files[files.len() - 1]->Ok_0.name());
                assert(!distinct(files));
            } else {
                assert forall|i: int, j: int| 0 <= i < j < files.len() implies (#[trigger] files[i])->Ok_0.name() != (
                #[trigger] files[j])->Ok_0.name() by {
                    if j < rest.len() {
                        assert(rest[i]->Ok_0.name() != rest[j]->Ok_0.name());
                    } else {
                        assert(rest[i] is Ok);
                        assert(rest.contains(rest[i]));
                        assert(mirrors.contains(rest[i]->Ok_0));
                        let k = choose|k: int| 0 <= k < mirrors.len() && mirrors[k] == rest[i]->Ok_0;
                        assert(mirrors[k].name() == files[i]->Ok_0.name());
                    }
                }
                assert forall|i: int| 0 <= i < files.len() implies (#[trigger] files[i]) is Ok by {
                    if i < rest.len() {
                        assert(rest[i] is Ok);
                    }
                }
                let place = place_of(mirrors, last.name());
                let after = with_mirror(mirrors, last);
                assert(after == mirrors.insert(place, last));
                assert forall|mirror: CanonicalMirror| #[trigger] after.contains(mirror) <==> files.contains(
                    Ok(mirror),
                ) by {
                    if after.contains(mirror) {
                        let k = choose|k: int| 0 <= k < after.len() && after[k] == mirror;
                        if k == place {
                            assert(files[files.len() - 1] == Ok::<CanonicalMirror, ConfigError>(mirror));
                        } else {
                            assert(mirror == mirrors[if k < place { k } else { k - 1 }]);
                            assert(mirrors.contains(mirror));
                            let i = choose|i: int| 0 <= i < rest.len() && rest[i] == Ok::<CanonicalMirror, ConfigError>(mirror);
                            assert(files[i] == Ok::<CanonicalMirror, ConfigError>(mirror));
                        }
                    }
                    if files.contains(Ok(mirror)) {
                        let i = choose|i: int| 0 <= i < files.len() && files[i] == Ok::<CanonicalMirror, ConfigError>(mirror);
                        if i < rest.len() {
                            assert(rest[i] == Ok::<CanonicalMirror, ConfigError>(mirror));
                            assert(mirrors.contains(mirror));
                            let k = choose|k: int| 0 <= k < mirrors.len() && mirrors[k] == mirror;
                            assert(after[if k < place { k } else { k + 1 }] == mirror);
                        } else {
                            assert(after[place] == mirror);
                        }
                    }
                }
            }
        }
    }
}

/// Mirrors in the order of their names are fixed by which they are.
proof fn lemma_in_order_same(first: Seq<CanonicalMirror>, second: Seq<CanonicalMirror>)
    requires
        in_order(first),
        in_order(second),
        forall|mirror: CanonicalMirror| first.contains(mirror) <==> #[trigger] second.contains(mirror),
    ensures
        first == second,
    decreases first.len(),
{
    if first.len() == 0 {
        if second.len() > 0 {
            assert(second.contains(second[0]));
            assert(first.contains(second[0]));
        }
    } else {
        let a = first.last();
        assert(first[first.len() - 1] == a);
        assert(first.contains(a));
        assert(second.contains(a));
        let b = second.last();
        assert(second[second.len() - 1] == b);
        assert(second.contains(b));
        assert(first.contains(b));
        let k = choose|k: int| 0 <= k < second.len() && second[k] == a;
        let p = choose|p: int| 0 <= p < first.len() && first[p] == b;
        text::lemma_lex_less_total(a.name(), b.name());
        if k < second.len() - 1 {
            assert(text::lex_less(second[k].name(), second[second.len() - 1].name()));
            if p < first.len() - 1 {
                assert(text::lex_less(first[p].name(), first[first.len() - 1].name()));
            }
        }
        assert(a == b);
        let less = first.drop_last();
        let fewer = second.drop_last();
        assert forall|mirror: CanonicalMirror| #[trigger] less.contains(mirror) <==> #[trigger] fewer.contains(
            mirror,
        ) by {
            text::lemma_lex_less_total(a.name(), a.name());
            if less.contains(mirror) {
                let i = choose|i: int| 0 <= i < less.len() && less[i] == mirror;
                assert(first[i] == mirror);
                assert(text::lex_less(first[i].name(), first[first.len() - 1].name()));
                assert(first.contains(mirror));
                assert(second.contains(mirror));
                let j = choose|j: int| 0 <= j < second.len() && second[j] == mirror;
                assert(fewer[j] == mirror);
            }
            if fewer.contains(mirror) {
                let i = choose|i: int| 0 <= i < fewer.len() && fewer[i] == mirror;
                assert(second[i] == mirror);
                assert(text::lex_less(second[i].name(), second[second.len() - 1].name()));
                assert(second.contains(mirror));
                assert(first.contains(mirror));
                let j = choose|j: int| 0 <= j < first.len() && first[j] == mirror;
                assert(less[j] == mirror);
            }
        }
        lemma_in_order_same(less, fewer);
        assert(first == less.push(a));
        assert(second == fewer.push(b));
    }
}

/// The order of the files does not matter: the same files in another order are refused too, or come
/// to the same mirrors and so to the same fingerprint.
pub proof fn law_order_of_files_does_not_matter(
    first: Seq<Result<CanonicalMirror, ConfigError>>,
    second: Seq<Result<CanonicalMirror, ConfigError>>,
)
    requires
        first.to_multiset() == second.to_multiset(),
    ensures
        bundle_errors(first).len() == 0 <==> bundle_errors(second).len() == 0,
        bundle_errors(first).len() == 0 ==> collected(first).0 == collected(second).0,
{
    lemma_collected(first);
    lemma_collected(second);
    if distinct(first) {
        lemma_distinct_reordered(first, second);
    }
    if distinct(second) {
        lemma_distinct_reordered(second, first);
    }
    if distinct(first) {
        law_collected_in_order(first);
        law_collected_in_order(second);
        lemma_in_order_same(collected(first).0, collected(second).0);
    }
}

proof fn lemma_distinct_reordered(
    first: Seq<Result<CanonicalMirror, ConfigError>>,
    second: Seq<Result<CanonicalMirror, ConfigError>>,
)
    requires
        first.to_multiset() == second.to_multiset(),
        distinct(first),
    ensures
        distinct(second),
        forall|file: Result<CanonicalMirror, ConfigError>| #[trigger] first.contains(file) <==> #[trigger] second.contains(file),
{
    broadcast use vstd::seq_lib::group_to_multiset_ensures;

    assert forall|file: Result<CanonicalMirror, ConfigError>| #[trigger] first.contains(file) <==>
        #[trigger] second.contains(file) by {
        assert(first.contains(file) <==> first.to_multiset().count(file) > 0);
        assert(second.contains(file) <==> second.to_multiset().count(file) > 0);
    }
    assert forall|i: int| 0 <= i < second.len() implies (#[trigger] second[i]) is Ok by {
        assert(second.contains(second[i]));
        assert(first.contains(second[i]));
    }
    assert(first.no_duplicates());
    first.lemma_multiset_has_no_duplicates();
    second.lemma_multiset_has_no_duplicates_conv();
    assert forall|i: int, j: int| 0 <= i < j < second.len() implies (#[trigger] second[i])->Ok_0.name() != (
    #[trigger] second[j])->Ok_0.name() by {
        assert(second.contains(second[i]) && second.contains(second[j]));
        assert(first.contains(second[i]) && first.contains(second[j]));
        let p = choose|p: int| 0 <= p < first.len() && first[p] == second[i];
        let q = choose|q: int| 0 <= q < first.len() && first[q] == second[j];
        assert(second[i] != second[j]);
        if p < q {
            assert(first[p]->Ok_0.name() != first[q]->Ok_0.name());
        } else {
            assert(first[q]->Ok_0.name() != first[p]->Ok_0.name());
        }
    }
}

proof fn lemma_overlaps_found(mirrors: Seq<CanonicalMirror>, i: int, end: int)
    requires
        0 <= i < mirrors.len(),
        end <= mirrors.len(),
        overlaps_with(mirrors, i, end).len() > 0,
    ensures
        exists|j: int| i < j < end && overlap(mirrors[i], #[trigger] mirrors[j]),
    decreases end - i,
{
    if end > i + 1 && !overlap(mirrors[i], mirrors[end - 1]) {
        lemma_overlaps_found(mirrors, i, end - 1);
    }
}

proof fn lemma_overlaps_found_upto(mirrors: Seq<CanonicalMirror>, end: int)
    requires
        end <= mirrors.len(),
        overlaps_upto(mirrors, end).len() > 0,
    ensures
        exists|i: int, j: int| 0 <= i < j < mirrors.len() && overlap(#[trigger] mirrors[i], #[trigger] mirrors[j]),
    decreases end,
{
    if end > 0 {
        if overlaps_upto(mirrors, end - 1).len() > 0 {
            lemma_overlaps_found_upto(mirrors, end - 1);
        } else {
            lemma_overlaps_found(mirrors, end - 1, mirrors.len() as int);
            let j = choose|j: int| end - 1 < j < mirrors.len() && overlap(mirrors[end - 1], #[trigger] mirrors[j]);
            assert(overlap(mirrors[end - 1], mirrors[j]));
        }
    }
}

/// A bundle is accepted exactly where every file of it is, no two of them name one mirror, and no two mirrors
/// of one node are written one into the other; it then holds the mirrors of its files and no others.
pub proof fn law_bundles_hold_the_mirrors_of_their_files(files: Seq<Result<CanonicalMirror, ConfigError>>)
    ensures
        bundle_errors(files).len() == 0 <==> {
            &&& forall|i: int| 0 <= i < files.len() ==> (#[trigger] files[i]) is Ok
            &&& forall|i: int, j: int|
                0 <= i < j < files.len() ==> (#[trigger] files[i])->Ok_0.name() != (#[trigger] files[j])->Ok_0.name()
            &&& forall|i: int, j: int|
                0 <= i < files.len() && 0 <= j < files.len() && i != j && (#[trigger] files[i])->Ok_0.owner_node@ == (
                #[trigger] files[j])->Ok_0.owner_node@ ==> !path::leads_into(files[i]->Ok_0.target(), files[j]->Ok_0.target())
        },
        bundle_errors(files).len() == 0 ==> forall|mirror: CanonicalMirror| #[trigger]
            collected(files).0.contains(mirror) <==> files.contains(Ok(mirror)),
{
    lemma_collected(files);
    let (mirrors, errors) = collected(files);
    let accepted = bundle_errors(files).len() == 0;
    if accepted {
        assert forall|i: int, j: int|
            0 <= i < files.len() && 0 <= j < files.len() && i != j && (#[trigger] files[i])->Ok_0.owner_node@ == (
            #[trigger] files[j])->Ok_0.owner_node@ implies !path::leads_into(files[i]->Ok_0.target(), files[j]->Ok_0.target()) by {
            let (one, two) = (files[i]->Ok_0, files[j]->Ok_0);
            assert(files[i] is Ok && files[j] is Ok);
            assert(files.contains(Ok(one)) && files.contains(Ok(two)));
            assert(mirrors.contains(one) && mirrors.contains(two));
            let a = choose|a: int| 0 <= a < mirrors.len() && mirrors[a] == one;
            let b = choose|b: int| 0 <= b < mirrors.len() && mirrors[b] == two;
            assert(one.name() != two.name()) by {
                if i < j {
                    assert(files[i]->Ok_0.name() != files[j]->Ok_0.name());
                } else {
                    assert(files[j]->Ok_0.name() != files[i]->Ok_0.name());
                }
            }
            if a < b {
                law_targets_of_a_node_are_apart(files, a, b);
            } else {
                law_targets_of_a_node_are_apart(files, b, a);
            }
        }
    } else if distinct(files) {
        lemma_overlaps_found_upto(mirrors, mirrors.len() as int);
        let (a, b) = choose|a: int, b: int|
            0 <= a < b < mirrors.len() && overlap(#[trigger] mirrors[a], #[trigger] mirrors[b]);
        law_collected_in_order(files);
        text::lemma_lex_less_total(mirrors[a].name(), mirrors[b].name());
        assert(text::lex_less(mirrors[a].name(), mirrors[b].name()));
        assert(mirrors.contains(mirrors[a]) && mirrors.contains(mirrors[b]));
        assert(files.contains(Ok(mirrors[a])) && files.contains(Ok(mirrors[b])));
        let i = choose|i: int| 0 <= i < files.len() && files[i] == Ok::<CanonicalMirror, ConfigError>(mirrors[a]);
        let j = choose|j: int| 0 <= j < files.len() && files[j] == Ok::<CanonicalMirror, ConfigError>(mirrors[b]);
        assert(i != j) by {
            if mirrors[a] == mirrors[b] {
                text::lemma_lex_less_total(mirrors[a].name(), mirrors[a].name());
            }
        }
        assert(files[i]->Ok_0.owner_node@ == files[j]->Ok_0.owner_node@);
    }
}

/// Every file that is not accepted is complained of, with its own fault.
pub proof fn law_every_faulty_file_is_told(files: Seq<Result<CanonicalMirror, ConfigError>>, i: int)
    requires
        0 <= i < files.len(),
        files[i] is Err,
    ensures
        bundle_errors(files).contains(files[i]->Err_0),
{
    lemma_faulty_file(files, i);
    let (mirrors, errors) = collected(files);
    let k = choose|k: int| 0 <= k < errors.len() && errors[k] == files[i]->Err_0;
    assert(bundle_errors(files)[k] == errors[k]);
}

proof fn lemma_faulty_file(files: Seq<Result<CanonicalMirror, ConfigError>>, i: int)
    requires
        0 <= i < files.len(),
        files[i] is Err,
    ensures
        collected(files).1.contains(files[i]->Err_0),
    decreases files.len(),
{
    let (mirrors, errors) = collected(files.drop_last());
    let all = collected(files).1;
    if i == files.len() - 1 {
        assert(all[errors.len() as int] == files[i]->Err_0);
    } else {
        assert(files.drop_last()[i] == files[i]);
        lemma_faulty_file(files.drop_last(), i);
        let k = choose|k: int| 0 <= k < errors.len() && errors[k] == files[i]->Err_0;
        assert(all[k] == errors[k]);
    }
}

/// What a bundle is fingerprinted by is, mirror by mirror, the name, the node and the document, each closed.
pub proof fn law_bundles_are_fingerprinted_whole(front: Seq<CanonicalMirror>, rest: Seq<CanonicalMirror>, mirror: CanonicalMirror)
    ensures
        bundle_bytes(front + rest) == bundle_bytes(front) + bundle_bytes(rest),
        bundle_bytes(seq![mirror]) == encode_utf8(mirror.name()) + seq![0u8] + encode_utf8(mirror.owner_node@) + seq![0u8]
            + encode_utf8(mirror.canonical_toml@) + seq![0u8],
    decreases rest.len(),
{
    assert(bundle_bytes(seq![mirror]) =~= encode_utf8(mirror.name()) + seq![0u8] + encode_utf8(mirror.owner_node@) + seq![0u8]
        + encode_utf8(mirror.canonical_toml@) + seq![0u8]) by {
        reveal_with_fuel(bundle_bytes, 2);
        assert(seq![mirror].drop_last() =~= Seq::empty());
        assert(seq![mirror].last() == mirror);
    }
    if rest.len() == 0 {
        assert(front + rest =~= front);
        assert(bundle_bytes(front) + bundle_bytes(rest) =~= bundle_bytes(front));
    } else {
        law_bundles_are_fingerprinted_whole(front, rest.drop_last(), mirror);
        assert((front + rest).drop_last() =~= front + rest.drop_last());
        assert((front + rest).last() == rest.last());
        assert(bundle_bytes(front + rest) =~= bundle_bytes(front) + bundle_bytes(rest));
    }
}

} // verus!
