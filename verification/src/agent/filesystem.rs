//! What must hold of directories before a candidate is written into or published from them.
use super::spool::FileIdentity;
use super::spool::PublicationState;
use super::spool::PublicationView;
use crate::path;
use crate::text;
use vstd::prelude::*;

verus! {

/// The pieces between the separators of a text, empty ones too.
pub open spec fn pieces(s: Seq<u8>, separator: u8) -> Seq<Seq<u8>>
    decreases s.len(),
{
    if s.len() == 0 {
        seq![Seq::empty()]
    } else {
        let before = pieces(s.drop_last(), separator);
        if s.last() == separator {
            before.push(Seq::empty())
        } else {
            before.drop_last().push(before.last().push(s.last()))
        }
    }
}

/// What a list of byte strings holds.
pub open spec fn byte_views(list: Seq<Vec<u8>>) -> Seq<Seq<u8>> {
    list.map_values(|bytes: Vec<u8>| bytes@)
}

fn split(s: &Vec<u8>, separator: u8) -> (r: Vec<Vec<u8>>)
    ensures
        byte_views(r@) == pieces(s@, separator),
{
    let mut done: Vec<Vec<u8>> = Vec::new();
    let mut open: Vec<u8> = Vec::new();
    let mut i: usize = 0;
    assert(s@.take(0) == Seq::<u8>::empty());
    assert(byte_views(done@).push(open@) =~= pieces(s@.take(0), separator));
    while i < s.len()
        invariant
            i <= s.len(),
            byte_views(done@).push(open@) == pieces(s@.take(i as int), separator),
        decreases s.len() - i,
    {
        let ghost before = byte_views(done@).push(open@);
        proof {
            assert(s@.take(i + 1).drop_last() == s@.take(i as int));
            assert(s@.take(i + 1).last() == s@[i as int]);
            assert(before.drop_last() == byte_views(done@));
            assert(before.last() == open@);
        }
        let byte: u8 = s[i];
        if byte == separator {
            let ghost finished = done@;
            done.push(open);
            assert(byte_views(done@) =~= before);
            open = Vec::new();
        } else {
            open.push(byte);
        }
        i = i + 1;
    }
    assert(s@.take(s@.len() as int) == s@);
    let ghost finished = done@;
    let ghost last = open@;
    done.push(open);
    assert(byte_views(done@) =~= byte_views(finished).push(last));
    done
}

/// True of the digits of an octal number.
pub open spec fn octal(byte: u8) -> bool {
    0x30 <= byte <= 0x37
}

/// True when a text begins with a backslash and three octal digits.
pub open spec fn escaped(field: Seq<u8>) -> bool {
    field.len() >= 4 && field[0] == 0x5c && octal(field[1]) && octal(field[2]) && octal(field[3])
}

/// The number that an escape stands for.
pub open spec fn escape_value(field: Seq<u8>) -> int {
    (field[1] - 0x30) * 64 + (field[2] - 0x30) * 8 + (field[3] - 0x30)
}

/// A mount path with its escapes replaced by the bytes that they stand for.
pub open spec fn unescaped(field: Seq<u8>) -> Seq<u8>
    decreases field.len(),
{
    if field.len() == 0 {
        Seq::empty()
    } else if escaped(field) {
        seq![escape_value(field) as u8] + unescaped(field.skip(4))
    } else {
        seq![field[0]] + unescaped(field.skip(1))
    }
}

/// True when every escape of a mount path stands for a byte.
pub open spec fn decodable(field: Seq<u8>) -> bool
    decreases field.len(),
{
    if field.len() == 0 {
        true
    } else if escaped(field) {
        escape_value(field) < 256 && decodable(field.skip(4))
    } else {
        decodable(field.skip(1))
    }
}

/// Tells whether every escape of a mount path stands for a byte.
fn can_decode(field: &Vec<u8>) -> (r: bool)
    ensures
        r == decodable(field@),
{
    let mut i: usize = 0;
    assert(field@.skip(0) == field@);
    while i < field.len()
        invariant
            i <= field.len(),
            decodable(field@) == decodable(field@.skip(i as int)),
        decreases field.len() - i,
    {
        let ghost rest = field@.skip(i as int);
        if field[i] == 0x5c && field.len() - i > 3 && 0x30 <= field[i + 1] && field[i + 1] <= 0x37 && 0x30 <= field[i
            + 2] && field[i + 2] <= 0x37 && 0x30 <= field[i + 3] && field[i + 3] <= 0x37 {
            assert(rest.skip(4) == field@.skip(i + 4));
            assert(rest[1] == field@[i + 1] && rest[2] == field@[i + 2] && rest[3] == field@[i + 3]);
            if field[i + 1] > 0x33 {
                return false;
            }
            i = i + 4;
        } else {
            assert(!escaped(rest));
            assert(rest.skip(1) == field@.skip(i + 1));
            i = i + 1;
        }
    }
    true
}

/// A mount path as the kernel lists it, with its escapes replaced by the bytes that they stand for.
pub fn decode_mount_path(field: &Vec<u8>) -> (r: Vec<u8>)
    requires
        decodable(field@),
    ensures
        r@ == unescaped(field@),
{
    let mut out: Vec<u8> = Vec::new();
    let mut i: usize = 0;
    assert(field@.skip(0) == field@);
    assert(out@ + unescaped(field@) =~= unescaped(field@));
    while i < field.len()
        invariant
            i <= field.len(),
            decodable(field@.skip(i as int)),
            out@ + unescaped(field@.skip(i as int)) == unescaped(field@),
        decreases field.len() - i,
    {
        let ghost rest = field@.skip(i as int);
        let ghost before = out@;
        if field[i] == 0x5c && field.len() - i > 3 && 0x30 <= field[i + 1] && field[i + 1] <= 0x37 && 0x30 <= field[i
            + 2] && field[i + 2] <= 0x37 && 0x30 <= field[i + 3] && field[i + 3] <= 0x37 {
            assert(rest.skip(4) == field@.skip(i + 4));
            assert(rest[1] == field@[i + 1] && rest[2] == field@[i + 2] && rest[3] == field@[i + 3]);
            assert(escape_value(rest) < 256);
            let value: u8 = (field[i + 1] - 0x30) * 64 + (field[i + 2] - 0x30) * 8 + (field[i + 3] - 0x30);
            assert(value == escape_value(rest) as u8);
            out.push(value);
            assert(before + (seq![value] + unescaped(rest.skip(4))) =~= out@ + unescaped(rest.skip(4)));
            i = i + 4;
        } else {
            assert(!escaped(rest));
            assert(rest.skip(1) == field@.skip(i + 1));
            assert(rest[0] == field@[i as int]);
            out.push(field[i]);
            assert(before + (seq![rest[0]] + unescaped(rest.skip(1))) =~= out@ + unescaped(rest.skip(1)));
            i = i + 1;
        }
    }
    assert(field@.skip(i as int).len() == 0);
    assert(out@ + Seq::<u8>::empty() =~= out@);
    out
}

/// The bytes of a path, one character for each.
pub open spec fn letters(bytes: Seq<u8>) -> Seq<char> {
    bytes.map_values(|byte: u8| byte as char)
}

fn lettered(bytes: &Vec<u8>) -> (r: String)
    ensures
        r@ == letters(bytes@),
{
    let mut out: String = String::new();
    let mut i: usize = 0;
    assert(letters(bytes@.take(0)) =~= Seq::<char>::empty());
    while i < bytes.len()
        invariant
            i <= bytes.len(),
            out@ == letters(bytes@.take(i as int)),
        decreases bytes.len() - i,
    {
        out.push(bytes[i] as char);
        assert(letters(bytes@.take(i + 1)) =~= letters(bytes@.take(i as int)).push(bytes@[i as int] as char));
        i = i + 1;
    }
    assert(bytes@.take(bytes@.len() as int) == bytes@);
    out
}

/// True when two paths have the same components.
pub open spec fn same_place(a: Seq<char>, b: Seq<char>) -> bool {
    path::components(a) == path::components(b)
}

/// Tells whether two paths have the same components.
pub fn places_match(a: &str, b: &str) -> (r: bool)
    ensures
        r == same_place(a@, b@),
{
    let forth: bool = path::starts_with(a, b);
    let back: bool = path::starts_with(b, a);
    proof {
        if path::leads_into(a@, b@) && path::leads_into(b@, a@) {
            assert(path::components(a@).take(path::components(b@).len() as int) =~= path::components(a@));
        }
        if same_place(a@, b@) {
            assert(path::components(a@).take(path::components(a@).len() as int) =~= path::components(a@));
        }
    }
    forth && back
}

/// The mount path that a line of the kernel's list names: its fifth field.
pub open spec fn mount_field(line: Seq<u8>) -> Option<Seq<u8>> {
    if pieces(line, 0x20).len() > 4 {
        Some(pieces(line, 0x20)[4])
    } else {
        None
    }
}

/// True when a line of the kernel's list names a place.
pub open spec fn names_mount(line: Seq<u8>, place: Seq<u8>) -> bool {
    mount_field(line) is Some && same_place(letters(unescaped(mount_field(line)->0)), letters(place))
}

/// True when the kernel's list can be read for a place: up to the first line that names it, the
/// escapes of the mount paths stand for bytes.
pub open spec fn readable(mountinfo: Seq<u8>, place: Seq<u8>) -> bool {
    let lines = pieces(mountinfo, 0x0a);
    forall|i: int|
        0 <= i < lines.len() && mount_field(#[trigger] lines[i]) is Some && !named_before(lines, place, i)
            ==> decodable(mount_field(lines[i])->0)
}

/// True when one of the first lines of the kernel's list names a place.
pub open spec fn named_before(lines: Seq<Seq<u8>>, place: Seq<u8>, count: int) -> bool {
    exists|k: int| 0 <= k < count && names_mount(#[trigger] lines[k], place)
}

/// True when the kernel's list names a place.
pub open spec fn lists(mountinfo: Seq<u8>, place: Seq<u8>) -> bool {
    exists|i: int| 0 <= i < pieces(mountinfo, 0x0a).len() && names_mount(#[trigger] pieces(mountinfo, 0x0a)[i], place)
}

/// What a line of the kernel's list says of a place.
enum Reading {
    /// An escape of its mount path stands for no byte.
    Unreadable,
    /// It names the place.
    Named,
    /// It names none, or another.
    Other,
}

fn read_line(line: &Vec<u8>, wanted: &str, place: Ghost<Seq<u8>>) -> (r: Reading)
    requires
        wanted@ == letters(place@),
    ensures
        match r {
            Reading::Unreadable => mount_field(line@) is Some && !decodable(mount_field(line@)->0),
            Reading::Named => decodable(mount_field(line@)->0) && names_mount(line@, place@),
            Reading::Other => (mount_field(line@) is Some ==> decodable(mount_field(line@)->0)) && !names_mount(
                line@,
                place@,
            ),
        },
{
    let fields: Vec<Vec<u8>> = split(line, 0x20);
    assert(pieces(line@, 0x20).len() == fields@.len());
    if fields.len() <= 4 {
        return Reading::Other;
    }
    assert(pieces(line@, 0x20)[4] == fields@[4]@);
    if !can_decode(&fields[4]) {
        return Reading::Unreadable;
    }
    let decoded: Vec<u8> = decode_mount_path(&fields[4]);
    let named: String = lettered(&decoded);
    if places_match(named.as_str(), wanted) {
        Reading::Named
    } else {
        Reading::Other
    }
}

/// Reads the kernel's list of mounts for a place: whether it names it, or nothing where an escape
/// that stands for no byte comes first.
pub fn read_mounts(mountinfo: &Vec<u8>, place: &Vec<u8>) -> (r: Option<bool>)
    ensures
        match r {
            Some(listed) => readable(mountinfo@, place@) && listed == lists(mountinfo@, place@),
            None => !readable(mountinfo@, place@),
        },
{
    let lines: Vec<Vec<u8>> = split(mountinfo, 0x0a);
    let wanted: String = lettered(place);
    let ghost all = pieces(mountinfo@, 0x0a);
    assert(all.len() == lines@.len());
    let mut i: usize = 0;
    while i < lines.len()
        invariant
            i <= lines.len(),
            all.len() == lines@.len(),
            all == byte_views(lines@),
            all == pieces(mountinfo@, 0x0a),
            wanted@ == letters(place@),
            forall|k: int| 0 <= k < i ==> !names_mount(#[trigger] all[k], place@),
            forall|k: int| 0 <= k < i && mount_field(#[trigger] all[k]) is Some ==> decodable(mount_field(all[k])->0),
        decreases lines.len() - i,
    {
        assert(all[i as int] == lines@[i as int]@);
        match read_line(&lines[i], wanted.as_str(), Ghost(place@)) {
            Reading::Unreadable => {
                assert(!named_before(all, place@, i as int));
                assert(mount_field(all[i as int]) is Some);
                return None;
            },
            Reading::Named => {
                assert(names_mount(all[i as int], place@));
                assert forall|k: int|
                    0 <= k < all.len() && mount_field(#[trigger] all[k]) is Some && !named_before(
                        all,
                        place@,
                        k,
                    ) implies decodable(mount_field(all[k])->0) by {
                    if k > i {
                        assert(named_before(all, place@, k));
                    }
                }
                return Some(true);
            },
            Reading::Other => {},
        }
        i = i + 1;
    }
    Some(false)
}

/// Tells whether the kernel's list of mounts names a place.
pub fn listed_mount_point(mountinfo: &Vec<u8>, place: &Vec<u8>) -> (r: bool)
    requires
        readable(mountinfo@, place@),
    ensures
        r == lists(mountinfo@, place@),
{
    match read_mounts(mountinfo, place) {
        Some(listed) => listed,
        None => false,
    }
}

/// Accepts a private path that is a directory.
pub fn validate_private_directory(path: &str, directory: bool) -> (r: Result<(), String>)
    ensures
        match r {
            Ok(()) => directory,
            Err(error) => !directory && error@ == "private publication path "@ + path@
                + " is not an ordinary directory"@,
        },
{
    if directory {
        Ok(())
    } else {
        Err(text::join3("private publication path ", path, " is not an ordinary directory"))
    }
}

/// What is known of a published name that is there.
#[derive(Clone, Copy, Debug, PartialEq, Eq, Structural)]
pub struct PublishedTarget {
    pub directory: bool,
    pub device: u64,
    /// The device of the directory that holds the name, where one does.
    pub parent_device: Option<u64>,
    /// True when the kernel's list of mounts names it.
    pub mounted: bool,
}

/// Why a published name cannot be exchanged, if it cannot.
pub open spec fn target_fault(path: Seq<char>, target: Option<PublishedTarget>) -> Option<Seq<char>> {
    match target {
        None => None,
        Some(found) => if !found.directory {
            Some("published target "@ + path + " is not an ordinary directory"@)
        } else if found.parent_device is None {
            Some("published target has no parent"@)
        } else if found.device != found.parent_device->0 || found.mounted {
            Some("published target "@ + path + " is a mount point"@)
        } else {
            None
        },
    }
}

/// Accepts a published name that is free, or a directory of the file system that holds it and no
/// mount point.
pub fn validate_published_target(path: &str, target: Option<PublishedTarget>) -> (r: Result<(), String>)
    ensures
        match r {
            Ok(()) => target_fault(path@, target) is None,
            Err(error) => target_fault(path@, target) == Some(error@),
        },
{
    let found: PublishedTarget = match target {
        Some(found) => found,
        None => {
            return Ok(());
        },
    };
    if !found.directory {
        return Err(text::join3("published target ", path, " is not an ordinary directory"));
    }
    match found.parent_device {
        None => Err("published target has no parent".to_owned()),
        Some(device) => if found.device != device || found.mounted {
            Err(text::join3("published target ", path, " is a mount point"))
        } else {
            Ok(())
        },
    }
}

/// What is known of the two roots.
#[derive(Clone, Copy, Debug, PartialEq, Eq, Structural)]
pub struct RootFacts {
    pub mirror_directory: bool,
    pub publication_directory: bool,
    pub mirror_device: u64,
    pub publication_device: u64,
}

/// Why the two roots cannot be used together, if they cannot.
pub open spec fn roots_fault(mirror: Seq<char>, publication: Seq<char>, facts: RootFacts) -> Option<Seq<char>> {
    if path::leads_into(publication, mirror) {
        Some("publication_root must be outside mirror_root"@)
    } else if !facts.mirror_directory || !facts.publication_directory {
        Some("mirror_root and publication_root must be directories"@)
    } else if facts.mirror_device != facts.publication_device {
        Some("mirror_root and publication_root must be on the same mounted filesystem"@)
    } else {
        None
    }
}

/// Accepts two roots that are directories of one file system, the private one outside the served
/// one. Both paths are canonical.
pub fn preflight(mirror_root: &str, publication_root: &str, facts: RootFacts) -> (r: Result<(), String>)
    ensures
        match r {
            Ok(()) => roots_fault(mirror_root@, publication_root@, facts) is None,
            Err(error) => roots_fault(mirror_root@, publication_root@, facts) == Some(error@),
        },
{
    if path::starts_with(publication_root, mirror_root) {
        return Err("publication_root must be outside mirror_root".to_owned());
    }
    if !facts.mirror_directory || !facts.publication_directory {
        return Err("mirror_root and publication_root must be directories".to_owned());
    }
    if facts.mirror_device != facts.publication_device {
        return Err("mirror_root and publication_root must be on the same mounted filesystem".to_owned());
    }
    Ok(())
}

/// Where a candidate is written and what its unchanged files are linked from.
#[derive(Debug, PartialEq, Eq)]
pub struct CandidatePlan {
    /// The directory of the attempt, which holds candidate and basis.
    pub attempt: String,
    /// The directory that holds it, where one does.
    pub above: Option<String>,
    /// What the basis is a link to; none where nothing is published yet and the basis is empty.
    pub basis: Option<String>,
}

/// Why no candidate can be prepared, if none can: something stands in its place already, or it does
/// not share the directory of one attempt with its basis.
pub open spec fn candidate_fault(
    p: PublicationView,
    candidate: Option<FileIdentity>,
    basis: Option<FileIdentity>,
) -> Option<Seq<char>> {
    if candidate is Some || basis is Some {
        Some("fresh Atomic Attempt candidate or basis already exists"@)
    } else if path::parent_of(p.candidate_dir) is None {
        Some("candidate has no Attempt directory"@)
    } else if path::parent_of(p.basis_dir) is None || !same_place(
        path::parent_of(p.basis_dir)->0,
        path::parent_of(p.candidate_dir)->0,
    ) {
        Some("candidate and basis do not share one Attempt directory"@)
    } else {
        None
    }
}

/// Plans the directories of a fresh candidate.
pub fn prepare_candidate(
    publication: &PublicationState,
    candidate: Option<FileIdentity>,
    basis: Option<FileIdentity>,
    published: Option<FileIdentity>,
) -> (r: Result<CandidatePlan, String>)
    ensures
        match r {
            Ok(plan) => {
                &&& candidate_fault(publication@, candidate, basis) is None
                &&& path::parent_of(publication@.candidate_dir) == Some(plan.attempt@)
                &&& text::opt_view(plan.above) == path::parent_of(plan.attempt@)
                &&& text::opt_view(plan.basis) == (if published is Some {
                    Some(publication@.published_dir)
                } else {
                    None
                })
            },
            Err(error) => candidate_fault(publication@, candidate, basis) == Some(error@),
        },
{
    if candidate.is_some() || basis.is_some() {
        return Err("fresh Atomic Attempt candidate or basis already exists".to_owned());
    }
    let attempt: String = match path::parent(publication.candidate_dir.as_str()) {
        Some(attempt) => attempt,
        None => {
            return Err("candidate has no Attempt directory".to_owned());
        },
    };
    let shared: bool = match path::parent(publication.basis_dir.as_str()) {
        Some(directory) => places_match(directory.as_str(), attempt.as_str()),
        None => false,
    };
    if !shared {
        return Err("candidate and basis do not share one Attempt directory".to_owned());
    }
    let above: Option<String> = path::parent(attempt.as_str());
    let basis: Option<String> = if published.is_some() {
        Some(publication.published_dir.clone())
    } else {
        None
    };
    Ok(CandidatePlan { attempt, above, basis })
}

/// A private root below the served one, or the served one itself, is refused whatever else holds.
pub proof fn law_private_roots_are_not_served(mirror: Seq<char>, publication: Seq<char>, facts: RootFacts)
    requires
        path::leads_into(publication, mirror),
    ensures
        roots_fault(mirror, publication, facts) is Some,
{
}

/// Pieces are what stands between the separators: what stands before the first one is the first piece, and the
/// rest is taken apart alike; a text without one is a single piece.
pub proof fn law_pieces_stand_between_separators(front: Seq<u8>, rest: Seq<u8>, separator: u8)
    requires
        forall|i: int| 0 <= i < front.len() ==> #[trigger] front[i] != separator,
    ensures
        pieces(front, separator) == seq![front],
        pieces(front + seq![separator] + rest, separator) == seq![front] + pieces(rest, separator),
    decreases front.len() + rest.len(),
{
    if front.len() > 0 && rest.len() == 0 {
        let shorter = front.drop_last();
        law_pieces_stand_between_separators(shorter, rest, separator);
        assert(front.last() == front[front.len() - 1]);
        assert(pieces(front, separator) =~= seq![front]) by {
            assert(seq![shorter].drop_last() =~= Seq::<Seq<u8>>::empty());
            assert(shorter.push(front.last()) =~= front);
        }
    } else if front.len() == 0 {
        assert(pieces(front, separator) =~= seq![front]) by {
            assert(front =~= Seq::<u8>::empty());
        }
    } else {
        law_pieces_stand_between_separators(front, Seq::empty(), separator);
    }
    let whole = front + seq![separator] + rest;
    if rest.len() == 0 {
        assert(whole.drop_last() =~= front);
        assert(whole.last() == separator);
        assert(pieces(whole, separator) =~= seq![front] + pieces(rest, separator)) by {
            assert(pieces(rest, separator) =~= seq![Seq::<u8>::empty()]);
        }
    } else {
        let shorter = rest.drop_last();
        law_pieces_stand_between_separators(front, shorter, separator);
        assert(whole.drop_last() =~= front + seq![separator] + shorter);
        assert(whole.last() == rest.last());
        lemma_some_piece(shorter, separator);
        let before = pieces(shorter, separator);
        assert((seq![front] + before).drop_last() =~= seq![front] + before.drop_last());
        assert((seq![front] + before).last() == before.last());
        assert(pieces(whole, separator) =~= seq![front] + pieces(rest, separator));
    }
}

proof fn lemma_some_piece(s: Seq<u8>, separator: u8)
    ensures
        pieces(s, separator).len() > 0,
    decreases s.len(),
{
    if s.len() > 0 {
        lemma_some_piece(s.drop_last(), separator);
    }
}

/// A place is written with a backslash and three octal digits for a byte, and else byte by byte.
pub proof fn law_escapes_stand_for_their_byte(byte: u8, a: u8, b: u8, c: u8, rest: Seq<u8>)
    requires
        0x30 <= a <= 0x33,
        0x30 <= b <= 0x37,
        0x30 <= c <= 0x37,
        byte == (a - 0x30) * 64 + (b - 0x30) * 8 + (c - 0x30),
    ensures
        unescaped(seq![0x5cu8, a, b, c] + rest) == seq![byte] + unescaped(rest),
        decodable(seq![0x5cu8, a, b, c] + rest) == decodable(rest),
        byte != 0x5c ==> unescaped(seq![byte] + rest) == seq![byte] + unescaped(rest),
        byte != 0x5c ==> decodable(seq![byte] + rest) == decodable(rest),
{
    let field = seq![0x5cu8, a, b, c] + rest;
    assert(field.skip(4) =~= rest);
    assert(field[0] == 0x5c && field[1] == a && field[2] == b && field[3] == c);
    let plain = seq![byte] + rest;
    assert(plain.skip(1) =~= rest);
    assert(plain[0] == byte);
}

/// A published name is good where nothing is there, or an ordinary directory on the filesystem of its parent
/// that nothing is mounted on.
pub proof fn law_published_names_are_ordinary(path: Seq<char>, target: Option<PublishedTarget>)
    ensures
        target_fault(path, target) is None <==> target is None || (target->0.directory && target->0.parent_device == Some(
            target->0.device,
        ) && !target->0.mounted),
{
}

/// Publishing is set up where both roots are directories on one filesystem and the private one is outside
/// the one that is served.
pub proof fn law_roots_are_apart_on_one_filesystem(mirror: Seq<char>, publication: Seq<char>, facts: RootFacts)
    ensures
        roots_fault(mirror, publication, facts) is None <==> facts.mirror_directory && facts.publication_directory
            && facts.mirror_device == facts.publication_device && !path::leads_into(publication, mirror),
{
}

/// A candidate is made where neither it nor its basis is there yet and both have one directory for the
/// attempt; the basis is a copy of what is published, where something is.
pub proof fn law_candidates_are_made_anew(
    p: PublicationView,
    candidate: Option<FileIdentity>,
    basis: Option<FileIdentity>,
)
    ensures
        candidate_fault(p, candidate, basis) is None <==> candidate is None && basis is None && path::parent_of(
            p.candidate_dir,
        ) is Some && path::parent_of(p.basis_dir) is Some && path::components(path::parent_of(p.candidate_dir)->0)
            == path::components(path::parent_of(p.basis_dir)->0),
{
}

} // verus!
