//! The compilation of a mirror document into what an agent executes.
use super::config::ConfigError;
use super::config::ConfigFault;
use super::config::MirrorDocument;
use super::config::PublicationMode;
use super::config::SyncConfig;
use super::ids::AttemptNo;
use super::ids::MirrorName;
use super::ids::NodeName;
use super::ids::RunId;
use super::state::AtomicPublicationSpec;
use super::state::ProcessRunSpec;
use crate::path;
use crate::text;
use vstd::prelude::*;

verus! {

/// What a run specification is compiled for.
#[derive(Debug)]
pub struct RunSpecContext<'a> {
    pub mirror_name: &'a MirrorName,
    pub run_id: RunId,
    pub attempt_no: AttemptNo,
    pub node_name: &'a NodeName,
    pub mirror_root: &'a str,
    pub publication_root: Option<&'a str>,
}

/// The directory under which a mirror is published.
pub open spec fn published_dir(document: MirrorDocument, context: RunSpecContext) -> Seq<char> {
    path::join_path(context.mirror_root@, document.mirror.target@)
}

/// The private directory of a mirror below a publication root.
pub open spec fn private_dir(context: RunSpecContext, root: Seq<char>) -> Seq<char> {
    path::join_path(root, context.mirror_name@)
}

/// The private directory of an attempt: named by run and attempt, below the mirror's.
pub open spec fn attempt_dir(context: RunSpecContext, root: Seq<char>) -> Seq<char> {
    path::join_path(
        path::join_path(private_dir(context, root), "attempts"@),
        context.run_id.text() + "-"@ + text::decimal(context.attempt_no@ as nat),
    )
}

/// The directory that a run writes: a fresh candidate where the mirror is published at once, else
/// the published directory.
pub open spec fn written_dir(document: MirrorDocument, context: RunSpecContext) -> Seq<char> {
    if document.mode() == PublicationMode::Atomic {
        path::join_path(attempt_dir(context, context.publication_root->0@), "root"@)
    } else {
        published_dir(document, context)
    }
}

/// The directory of which a candidate's unchanged files are linked.
pub open spec fn basis_dir(context: RunSpecContext) -> Seq<char> {
    path::join_path(attempt_dir(context, context.publication_root->0@), "basis"@)
}

/// A text with its placeholders replaced, one name after the other.
pub open spec fn resolved(value: Seq<char>, document: MirrorDocument, context: RunSpecContext) -> Seq<char> {
    let v1 = text::replaced(value, "{mirror_name}"@, context.mirror_name@);
    let v2 = text::replaced(v1, "{run_id}"@, context.run_id.text());
    let v3 = text::replaced(v2, "{attempt}"@, text::decimal(context.attempt_no@ as nat));
    let v4 = text::replaced(v3, "{node_name}"@, context.node_name@);
    let v5 = text::replaced(v4, "{mirror_root}"@, context.mirror_root@);
    let v6 = text::replaced(v5, "{target_dir}"@, written_dir(document, context));
    text::replaced(v6, "{published_dir}"@, published_dir(document, context))
}

/// The program that a document runs.
pub open spec fn program_of(document: MirrorDocument, context: RunSpecContext) -> Seq<char> {
    match document.sync {
        SyncConfig::Command { program, .. } => resolved(program@, document, context),
        SyncConfig::Rsync { .. } => "rsync"@,
    }
}

/// The arguments that a document runs its program with: those of a command with their placeholders
/// replaced; those of rsync as they are, then the basis of an atomic candidate, then source and
/// destination behind a double hyphen.
pub open spec fn args_of(document: MirrorDocument, context: RunSpecContext) -> Seq<Seq<char>> {
    match document.sync {
        SyncConfig::Command { args, .. } => text::views(args@).map_values(
            |value: Seq<char>| resolved(value, document, context),
        ),
        SyncConfig::Rsync { source, args } => text::views(args@) + (if document.mode() == PublicationMode::Atomic {
            seq!["--link-dest="@ + basis_dir(context)]
        } else {
            Seq::empty()
        }) + seq!["--"@, source@, path::trim_slashes(written_dir(document, context)) + "/"@],
    }
}

/// The working directory of a command.
pub open spec fn cwd_of(document: MirrorDocument, context: RunSpecContext) -> Option<Seq<char>> {
    match document.sync {
        SyncConfig::Command { cwd, .. } => match cwd {
            Some(directory) => Some(resolved(directory@, document, context)),
            None => None,
        },
        SyncConfig::Rsync { .. } => None,
    }
}

/// True when a publication extension names the directories of an atomic run.
pub open spec fn publication_matches(
    publication: AtomicPublicationSpec,
    document: MirrorDocument,
    context: RunSpecContext,
) -> bool {
    let root = context.publication_root->0@;
    &&& publication.mirror@ == context.mirror_name@
    &&& publication.publication_root@ == root
    &&& publication.published_dir@ == published_dir(document, context)
    &&& publication.candidate_dir@ == written_dir(document, context)
    &&& publication.basis_dir@ == basis_dir(context)
    &&& publication.exchange_dir@ == path::join_path(private_dir(context, root), "exchange"@)
    &&& publication.gc_dir@ == path::join_path(private_dir(context, root), "gc"@)
}

fn resolve(
    value: &str,
    document: &MirrorDocument,
    context: &RunSpecContext<'_>,
    target_dir: &str,
    published: &str,
) -> (r: String)
    requires
        target_dir@ == written_dir(*document, *context),
        published@ == published_dir(*document, *context),
    ensures
        r@ == resolved(value@, *document, *context),
{
    proof {
        reveal_strlit("{mirror_name}");
        reveal_strlit("{run_id}");
        reveal_strlit("{attempt}");
        reveal_strlit("{node_name}");
        reveal_strlit("{mirror_root}");
        reveal_strlit("{target_dir}");
        reveal_strlit("{published_dir}");
    }
    let v1: String = text::replace_all(value, "{mirror_name}", context.mirror_name.as_str());
    let v2: String = text::replace_all(v1.as_str(), "{run_id}", context.run_id.to_text().as_str());
    let attempt: String = text::decimal_text(context.attempt_no.get() as u64);
    let v3: String = text::replace_all(v2.as_str(), "{attempt}", attempt.as_str());
    let v4: String = text::replace_all(v3.as_str(), "{node_name}", context.node_name.as_str());
    let v5: String = text::replace_all(v4.as_str(), "{mirror_root}", context.mirror_root);
    let v6: String = text::replace_all(v5.as_str(), "{target_dir}", target_dir);
    text::replace_all(v6.as_str(), "{published_dir}", published)
}

fn compile_publication(document: &MirrorDocument, context: &RunSpecContext<'_>, root: &str) -> (r:
    AtomicPublicationSpec)
    requires
        context.publication_root is Some,
        context.publication_root->0@ == root@,
        document.mode() == PublicationMode::Atomic,
    ensures
        publication_matches(r, *document, *context),
{
    let mirror_private: String = path::join(root, context.mirror_name.as_str());
    let attempts: String = path::join(mirror_private.as_str(), "attempts");
    let leaf: String = text::join3(
        context.run_id.to_text().as_str(),
        "-",
        text::decimal_text(context.attempt_no.get() as u64).as_str(),
    );
    let attempt_private: String = path::join(attempts.as_str(), leaf.as_str());
    AtomicPublicationSpec {
        mirror: context.mirror_name.as_str().to_owned(),
        publication_root: root.to_owned(),
        published_dir: path::join(context.mirror_root, document.mirror.target.as_str()),
        candidate_dir: path::join(attempt_private.as_str(), "root"),
        basis_dir: path::join(attempt_private.as_str(), "basis"),
        exchange_dir: path::join(mirror_private.as_str(), "exchange"),
        gc_dir: path::join(mirror_private.as_str(), "gc"),
    }
}

fn resolve_args(
    args: &Vec<String>,
    document: &MirrorDocument,
    context: &RunSpecContext<'_>,
    target_dir: &str,
    published: &str,
) -> (r: Vec<String>)
    requires
        target_dir@ == written_dir(*document, *context),
        published@ == published_dir(*document, *context),
    ensures
        text::views(r@) == text::views(args@).map_values(|value: Seq<char>| resolved(value, *document, *context)),
{
    let mut out: Vec<String> = Vec::new();
    let mut i: usize = 0;
    while i < args.len()
        invariant
            i <= args.len(),
            target_dir@ == written_dir(*document, *context),
            published@ == published_dir(*document, *context),
            out@.len() == i,
            forall|k: int| 0 <= k < i ==> (#[trigger] out@[k])@ == resolved(args@[k]@, *document, *context),
        decreases args.len() - i,
    {
        out.push(resolve(args[i].as_str(), document, context, target_dir, published));
        i = i + 1;
    }
    assert(text::views(out@) == text::views(args@).map_values(
        |value: Seq<char>| resolved(value, *document, *context),
    ));
    out
}

/// True when a specification is what a document compiles to.
pub open spec fn is_compiled(spec: ProcessRunSpec, document: MirrorDocument, context: RunSpecContext) -> bool {
    &&& spec.runner@ == "process"@
    &&& spec.program@ == program_of(document, context)
    &&& text::views(spec.args@) == args_of(document, context)
    &&& text::opt_view(spec.cwd) == cwd_of(document, context)
    &&& spec.timeout_seconds == document.run.timeout_seconds
    &&& spec.mirror_root@ == context.mirror_root@
    &&& spec.target_dir@ == written_dir(document, context)
    &&& match spec.publication {
        Some(publication) => document.mode() == PublicationMode::Atomic && publication_matches(
            *publication,
            document,
            context,
        ),
        None => document.mode() == PublicationMode::Direct,
    }
}

/// Compiles what an agent executes for one attempt; an atomic mirror needs a publication root.
pub fn compile_process_run_spec(document: &MirrorDocument, context: &RunSpecContext<'_>) -> (r: Result<
    ProcessRunSpec,
    ConfigError,
>)
    ensures
        match r {
            Ok(spec) => (document.mode() == PublicationMode::Direct || context.publication_root is Some) && is_compiled(
                spec,
                *document,
                *context,
            ),
            Err(error) => document.mode() == PublicationMode::Atomic && context.publication_root is None && error@
                == ConfigFault::MissingPublicationRoot,
        },
{
    let published: String = path::join(context.mirror_root, document.mirror.target.as_str());
    let publication: Option<Box<AtomicPublicationSpec>> = match document.publication_mode() {
        PublicationMode::Direct => None,
        PublicationMode::Atomic => match context.publication_root {
            None => {
                return Err(ConfigError::MissingPublicationRoot);
            },
            Some(root) => Some(Box::new(compile_publication(document, context, root))),
        },
    };
    let target_dir: String = match &publication {
        Some(value) => value.candidate_dir.clone(),
        None => published.clone(),
    };
    let (program, args, cwd): (String, Vec<String>, Option<String>) = match &document.sync {
        SyncConfig::Command { program, args, cwd } => {
            let directory: Option<String> = match cwd {
                Some(value) => Some(
                    resolve(value.as_str(), document, context, target_dir.as_str(), published.as_str()),
                ),
                None => None,
            };
            (
                resolve(program.as_str(), document, context, target_dir.as_str(), published.as_str()),
                resolve_args(args, document, context, target_dir.as_str(), published.as_str()),
                directory,
            )
        },
        SyncConfig::Rsync { source, args } => {
            let mut compiled: Vec<String> = text::clone_list(args);
            let ghost given = compiled@;
            if let Some(value) = &publication {
                compiled.push(text::join2("--link-dest=", value.basis_dir.as_str()));
            }
            compiled.push("--".to_owned());
            compiled.push(source.clone());
            compiled.push(text::join2(path::without_end_slashes(target_dir.as_str()).as_str(), "/"));
            assert(text::views(compiled@) == args_of(*document, *context));
            ("rsync".to_owned(), compiled, None)
        },
    };
    Ok(
        ProcessRunSpec {
            runner: "process".to_owned(),
            program,
            args,
            cwd,
            timeout_seconds: document.run.timeout_seconds,
            mirror_root: context.mirror_root.to_owned(),
            target_dir,
            publication,
        },
    )
}

/// The name of an attempt's private directory: its run and its number.
spec fn attempt_name(context: RunSpecContext) -> Seq<char> {
    context.run_id.text() + "-"@ + text::decimal(context.attempt_no@ as nat)
}

/// The name of an attempt's directory is relative and ends in no slash.
proof fn lemma_attempt_name(context: RunSpecContext)
    ensures
        attempt_name(context).len() > 0,
        !path::is_absolute(attempt_name(context)),
        attempt_name(context).last() != '/',
{
    let name = attempt_name(context);
    let number = text::decimal(context.attempt_no@ as nat);
    super::ids::law_run_ids_read_back(context.run_id);
    vstd::utf8::is_ascii_chars_encode_utf8(context.run_id.text());
    text::lemma_decimal_digits(context.attempt_no@ as nat);
    assert(name.last() == number.last());
    assert(text::is_digit(number[number.len() - 1]));
    assert(name[0] == context.run_id.text()[0]);
    assert(crate::outside::base32_value(vstd::utf8::encode_utf8(context.run_id.text())[0]) is Some);
}

/// What is joined to one directory by relative names differs where the names do.
proof fn lemma_joined(base: Seq<char>, one: Seq<char>, two: Seq<char>)
    requires
        !path::is_absolute(one),
        !path::is_absolute(two),
        path::join_path(base, one) == path::join_path(base, two),
    ensures
        one == two,
{
    let whole = path::join_path(base, one);
    let start: int = whole.len() - one.len();
    assert(whole.skip(start) == one);
    assert(whole.skip(start) == two);
}

/// What is joined by one relative name differs where the directories do, none of which ends in a
/// slash.
proof fn lemma_joined_to(one: Seq<char>, two: Seq<char>, name: Seq<char>)
    requires
        !path::is_absolute(name),
        one.len() > 0 && one.last() != '/',
        two.len() > 0 && two.last() != '/',
        path::join_path(one, name) == path::join_path(two, name),
    ensures
        one == two,
{
    let whole = path::join_path(one, name);
    assert(whole.take(one.len() as int) == one);
    assert(whole.take(one.len() as int) == two);
}

/// Two attempts below one publication root whose private directories have one name within are the
/// same attempt.
proof fn lemma_attempt_of(first: RunSpecContext, second: RunSpecContext, root: Seq<char>, name: Seq<char>)
    requires
        first.mirror_name@ == second.mirror_name@,
        !path::is_absolute(name),
        path::join_path(attempt_dir(first, root), name) == path::join_path(attempt_dir(second, root), name),
    ensures
        first.run_id == second.run_id,
        first.attempt_no@ == second.attempt_no@,
{
    let base = path::join_path(private_dir(first, root), "attempts"@);
    lemma_attempt_name(first);
    lemma_attempt_name(second);
    assert(attempt_dir(first, root).last() == attempt_name(first).last());
    assert(attempt_dir(second, root).last() == attempt_name(second).last());
    lemma_joined_to(attempt_dir(first, root), attempt_dir(second, root), name);
    lemma_joined(base, attempt_name(first), attempt_name(second));
    text::lemma_numbered(
        first.run_id.text(),
        first.attempt_no@ as nat,
        second.run_id.text(),
        second.attempt_no@ as nat,
    );
    super::ids::law_run_ids_read_back(first.run_id);
    super::ids::law_run_ids_read_back(second.run_id);
}

/// Every attempt at an atomic mirror writes a candidate of its own, next to a basis of its own: of
/// two attempts below one publication root neither directory is shared, while what they publish,
/// exchange and discard is.
pub proof fn law_candidates_are_fresh(
    document: MirrorDocument,
    first: RunSpecContext,
    second: RunSpecContext,
    one: AtomicPublicationSpec,
    two: AtomicPublicationSpec,
)
    requires
        document.mode() == PublicationMode::Atomic,
        first.publication_root is Some,
        second.publication_root is Some,
        first.publication_root->0@ == second.publication_root->0@,
        first.mirror_name@ == second.mirror_name@,
        first.mirror_root@ == second.mirror_root@,
        first.run_id != second.run_id || first.attempt_no@ != second.attempt_no@,
        publication_matches(one, document, first),
        publication_matches(two, document, second),
    ensures
        one.candidate_dir@ != two.candidate_dir@,
        one.basis_dir@ != two.basis_dir@,
        one.candidate_dir@ != one.basis_dir@,
        one.publication_root@ == two.publication_root@,
        one.published_dir@ == two.published_dir@,
        one.exchange_dir@ == two.exchange_dir@,
        one.gc_dir@ == two.gc_dir@,
{
    let root = first.publication_root->0@;
    reveal_strlit("root");
    reveal_strlit("basis");
    if one.candidate_dir@ == two.candidate_dir@ {
        lemma_attempt_of(first, second, root, "root"@);
    }
    if one.basis_dir@ == two.basis_dir@ {
        lemma_attempt_of(first, second, root, "basis"@);
    }
    if one.candidate_dir@ == one.basis_dir@ {
        lemma_joined(attempt_dir(first, root), "root"@, "basis"@);
        assert("root"@.len() != "basis"@.len());
    }
}

/// True of a placeholder's text: a name between braces.
spec fn is_placeholder(p: Seq<char>) -> bool {
    &&& p.len() >= 2
    &&& p[0] == '{'
    &&& p.last() == '}'
    &&& forall|i: int| 0 < i < p.len() - 1 ==> #[trigger] p[i] != '{' && p[i] != '}'
}

/// What stands before the first opening brace is not touched by a replacement.
proof fn lemma_plain_front(front: Seq<char>, rest: Seq<char>, pattern: Seq<char>, with: Seq<char>)
    requires
        is_placeholder(pattern),
        !front.contains('{'),
    ensures
        text::replaced(front + rest, pattern, with) == front + text::replaced(rest, pattern, with),
    decreases front.len(),
{
    let whole = front + rest;
    if front.len() == 0 {
        assert(whole == rest);
        assert(front + text::replaced(rest, pattern, with) == text::replaced(rest, pattern, with));
    } else {
        let shorter = front.skip(1);
        assert(whole[0] == front[0]);
        assert(front.contains(front[0]));
        if text::begins_with(whole, pattern) {
            assert(whole.take(pattern.len() as int)[0] == pattern[0]);
        }
        assert(whole.skip(1) == shorter + rest);
        assert(!shorter.contains('{')) by {
            if shorter.contains('{') {
                let i = choose|i: int| 0 <= i < shorter.len() && shorter[i] == '{';
                assert(front[i + 1] == '{');
            }
        }
        lemma_plain_front(shorter, rest, pattern, with);
        assert(seq![front[0]] + (shorter + text::replaced(rest, pattern, with)) == front + text::replaced(
            rest,
            pattern,
            with,
        ));
    }
}

/// A text without an opening brace is not touched by a replacement.
proof fn lemma_plain(value: Seq<char>, pattern: Seq<char>, with: Seq<char>)
    requires
        is_placeholder(pattern),
        !value.contains('{'),
    ensures
        text::replaced(value, pattern, with) == value,
{
    lemma_plain_front(value, Seq::empty(), pattern, with);
    assert(value + Seq::<char>::empty() == value);
}

/// A placeholder is replaced where it is the pattern, and left where it is another one.
proof fn lemma_placeholder_front(own: Seq<char>, rest: Seq<char>, pattern: Seq<char>, with: Seq<char>)
    requires
        is_placeholder(pattern),
        is_placeholder(own),
    ensures
        text::replaced(own + rest, pattern, with) == (if own == pattern {
            with
        } else {
            own
        }) + text::replaced(rest, pattern, with),
{
    let whole = own + rest;
    if own == pattern {
        assert(whole.take(pattern.len() as int) == pattern);
        assert(whole.skip(pattern.len() as int) == rest);
    } else {
        if text::begins_with(whole, pattern) {
            let start = whole.take(pattern.len() as int);
            if pattern.len() <= own.len() {
                assert(start[pattern.len() - 1] == own[pattern.len() - 1]);
                assert(own[pattern.len() - 1] == '}');
                assert(pattern.len() == own.len());
                assert(start == own);
            } else {
                assert(start[own.len() - 1] == own[own.len() - 1]);
                assert(pattern[own.len() - 1] == '}');
            }
        }
        let tail = own.skip(1);
        assert(!tail.contains('{')) by {
            if tail.contains('{') {
                let i = choose|i: int| 0 <= i < tail.len() && tail[i] == '{';
                assert(own[i + 1] == '{');
            }
        }
        assert(whole.skip(1) == tail + rest);
        lemma_plain_front(tail, rest, pattern, with);
        assert(seq![own[0]] + (tail + text::replaced(rest, pattern, with)) == own + text::replaced(
            rest,
            pattern,
            with,
        ));
    }
}

/// A text without an opening brace stands for itself.
pub proof fn law_plain_texts_stand_for_themselves(value: Seq<char>, document: MirrorDocument, context: RunSpecContext)
    requires
        !value.contains('{'),
    ensures
        resolved(value, document, context) == value,
{
    lemma_placeholders();
    lemma_plain(value, "{mirror_name}"@, context.mirror_name@);
    lemma_plain(value, "{run_id}"@, context.run_id.text());
    lemma_plain(value, "{attempt}"@, text::decimal(context.attempt_no@ as nat));
    lemma_plain(value, "{node_name}"@, context.node_name@);
    lemma_plain(value, "{mirror_root}"@, context.mirror_root@);
    lemma_plain(value, "{target_dir}"@, written_dir(document, context));
    lemma_plain(value, "{published_dir}"@, published_dir(document, context));
}

/// The seven placeholders are all different.
proof fn lemma_placeholders()
    ensures
        is_placeholder("{mirror_name}"@),
        is_placeholder("{run_id}"@),
        is_placeholder("{attempt}"@),
        is_placeholder("{node_name}"@),
        is_placeholder("{mirror_root}"@),
        is_placeholder("{target_dir}"@),
        is_placeholder("{published_dir}"@),
        "{mirror_name}"@.len() == 13,
        "{run_id}"@.len() == 8,
        "{attempt}"@.len() == 9,
        "{node_name}"@.len() == 11,
        "{mirror_root}"@.len() == 13,
        "{target_dir}"@.len() == 12,
        "{published_dir}"@.len() == 15,
        "{mirror_name}"@ != "{mirror_root}"@,
{
    reveal_strlit("{mirror_name}");
    reveal_strlit("{run_id}");
    reveal_strlit("{attempt}");
    reveal_strlit("{node_name}");
    reveal_strlit("{mirror_root}");
    reveal_strlit("{target_dir}");
    reveal_strlit("{published_dir}");
    assert("{mirror_name}"@[8] == 'n');
    assert("{mirror_root}"@[8] == 'r');
}

/// A text of which the last placeholder's meaning is still to be put in, or already is: what stands at
/// its front after all replacements.
proof fn lemma_one_placeholder(
    own: Seq<char>,
    meaning: Seq<char>,
    rest: Seq<char>,
    document: MirrorDocument,
    context: RunSpecContext,
)
    requires
        is_placeholder(own),
        ({
            ||| own == "{mirror_name}"@ && meaning == context.mirror_name@ && !meaning.contains('{')
            ||| own == "{run_id}"@ && meaning == context.run_id.text() && !meaning.contains('{')
            ||| own == "{attempt}"@ && meaning == text::decimal(context.attempt_no@ as nat) && !meaning.contains('{')
            ||| own == "{node_name}"@ && meaning == context.node_name@ && !meaning.contains('{')
            ||| own == "{mirror_root}"@ && meaning == context.mirror_root@ && !meaning.contains('{')
            ||| own == "{target_dir}"@ && meaning == written_dir(document, context) && !meaning.contains('{')
            ||| own == "{published_dir}"@ && meaning == published_dir(document, context)
        }),
    ensures
        resolved(own + rest, document, context) == meaning + resolved(rest, document, context),
{
    lemma_placeholders();
    let p1 = "{mirror_name}"@;
    let p2 = "{run_id}"@;
    let p3 = "{attempt}"@;
    let p4 = "{node_name}"@;
    let p5 = "{mirror_root}"@;
    let p6 = "{target_dir}"@;
    let p7 = "{published_dir}"@;
    let w1 = context.mirror_name@;
    let w2 = context.run_id.text();
    let w3 = text::decimal(context.attempt_no@ as nat);
    let w4 = context.node_name@;
    let w5 = context.mirror_root@;
    let w6 = written_dir(document, context);
    let w7 = published_dir(document, context);
    let r1 = text::replaced(rest, p1, w1);
    let r2 = text::replaced(r1, p2, w2);
    let r3 = text::replaced(r2, p3, w3);
    let r4 = text::replaced(r3, p4, w4);
    let r5 = text::replaced(r4, p5, w5);
    let r6 = text::replaced(r5, p6, w6);
    let f1 = if own == p1 { w1 } else { own };
    lemma_placeholder_front(own, rest, p1, w1);
    let f2 = if own == p2 { w2 } else { f1 };
    if own == p1 {
        lemma_plain_front(f1, r1, p2, w2);
    } else {
        lemma_placeholder_front(own, r1, p2, w2);
    }
    let f3 = if own == p3 { w3 } else { f2 };
    if own == p1 || own == p2 {
        lemma_plain_front(f2, r2, p3, w3);
    } else {
        lemma_placeholder_front(own, r2, p3, w3);
    }
    let f4 = if own == p4 { w4 } else { f3 };
    if own == p1 || own == p2 || own == p3 {
        lemma_plain_front(f3, r3, p4, w4);
    } else {
        lemma_placeholder_front(own, r3, p4, w4);
    }
    let f5 = if own == p5 { w5 } else { f4 };
    if own == p1 || own == p2 || own == p3 || own == p4 {
        lemma_plain_front(f4, r4, p5, w5);
    } else {
        lemma_placeholder_front(own, r4, p5, w5);
    }
    let f6 = if own == p6 { w6 } else { f5 };
    if own == p1 || own == p2 || own == p3 || own == p4 || own == p5 {
        lemma_plain_front(f5, r5, p6, w6);
    } else {
        lemma_placeholder_front(own, r5, p6, w6);
    }
    if own == p7 {
        lemma_placeholder_front(own, r6, p7, w7);
    } else {
        lemma_plain_front(f6, r6, p7, w7);
    }
}

/// Names, run identifiers and numbers hold no opening brace.
proof fn lemma_no_braces(context: RunSpecContext)
    ensures
        super::ids::is_name(context.mirror_name@) ==> !context.mirror_name@.contains('{'),
        super::ids::is_name(context.node_name@) ==> !context.node_name@.contains('{'),
        !context.run_id.text().contains('{'),
        !text::decimal(context.attempt_no@ as nat).contains('{'),
{
    let id = context.run_id.text();
    let number = text::decimal(context.attempt_no@ as nat);
    super::ids::law_run_ids_read_back(context.run_id);
    vstd::utf8::is_ascii_chars_encode_utf8(id);
    text::lemma_decimal_digits(context.attempt_no@ as nat);
    if id.contains('{') {
        let i = choose|i: int| 0 <= i < id.len() && id[i] == '{';
        assert(crate::outside::base32_value(vstd::utf8::encode_utf8(id)[i]) is Some);
    }
    if number.contains('{') {
        let i = choose|i: int| 0 <= i < number.len() && number[i] == '{';
        assert(text::is_digit(number[i]));
    }
}

/// Each placeholder stands for what it names, wherever it stands in a text: what is before it stays, it
/// becomes the name or the directory that it stands for, and the rest is resolved by itself.
pub proof fn law_placeholders_stand_for_what_they_name(
    front: Seq<char>,
    rest: Seq<char>,
    document: MirrorDocument,
    context: RunSpecContext,
)
    requires
        super::ids::is_name(context.mirror_name@),
        super::ids::is_name(context.node_name@),
        !front.contains('{'),
    ensures
        resolved(front + ("{mirror_name}"@ + rest), document, context) == front + (context.mirror_name@ + resolved(
            rest,
            document,
            context,
        )),
        resolved(front + ("{run_id}"@ + rest), document, context) == front + (context.run_id.text() + resolved(
            rest,
            document,
            context,
        )),
        resolved(front + ("{attempt}"@ + rest), document, context) == front + (text::decimal(
            context.attempt_no@ as nat,
        ) + resolved(rest, document, context)),
        resolved(front + ("{node_name}"@ + rest), document, context) == front + (context.node_name@ + resolved(
            rest,
            document,
            context,
        )),
        !context.mirror_root@.contains('{') ==> resolved(front + ("{mirror_root}"@ + rest), document, context) == front
            + (context.mirror_root@ + resolved(rest, document, context)),
        document.mode() == PublicationMode::Direct && !path::join_path(
            context.mirror_root@,
            document.mirror.target@,
        ).contains('{') ==> resolved(front + ("{target_dir}"@ + rest), document, context) == front + (path::join_path(
            context.mirror_root@,
            document.mirror.target@,
        ) + resolved(rest, document, context)),
        document.mode() == PublicationMode::Atomic && !written_dir(document, context).contains('{') ==> resolved(
            front + ("{target_dir}"@ + rest),
            document,
            context,
        ) == front + (written_dir(document, context) + resolved(rest, document, context)),
        resolved(front + ("{published_dir}"@ + rest), document, context) == front + (path::join_path(
            context.mirror_root@,
            document.mirror.target@,
        ) + resolved(rest, document, context)),
{
    lemma_placeholders();
    lemma_no_braces(context);
    let own = "{mirror_name}"@;
    lemma_resolved_front(front, own + rest, document, context);
    lemma_one_placeholder(own, context.mirror_name@, rest, document, context);
    let own = "{run_id}"@;
    lemma_resolved_front(front, own + rest, document, context);
    lemma_one_placeholder(own, context.run_id.text(), rest, document, context);
    let own = "{attempt}"@;
    lemma_resolved_front(front, own + rest, document, context);
    lemma_one_placeholder(own, text::decimal(context.attempt_no@ as nat), rest, document, context);
    let own = "{node_name}"@;
    lemma_resolved_front(front, own + rest, document, context);
    lemma_one_placeholder(own, context.node_name@, rest, document, context);
    if !context.mirror_root@.contains('{') {
        let own = "{mirror_root}"@;
        lemma_resolved_front(front, own + rest, document, context);
        lemma_one_placeholder(own, context.mirror_root@, rest, document, context);
    }
    if !written_dir(document, context).contains('{') {
        let own = "{target_dir}"@;
        lemma_resolved_front(front, own + rest, document, context);
        lemma_one_placeholder(own, written_dir(document, context), rest, document, context);
    }
    let own = "{published_dir}"@;
    lemma_resolved_front(front, own + rest, document, context);
    lemma_one_placeholder(own, published_dir(document, context), rest, document, context);
}

/// What stands before the first opening brace stays.
proof fn lemma_resolved_front(front: Seq<char>, rest: Seq<char>, document: MirrorDocument, context: RunSpecContext)
    requires
        !front.contains('{'),
    ensures
        resolved(front + rest, document, context) == front + resolved(rest, document, context),
{
    lemma_placeholders();
    let r1 = text::replaced(rest, "{mirror_name}"@, context.mirror_name@);
    let r2 = text::replaced(r1, "{run_id}"@, context.run_id.text());
    let r3 = text::replaced(r2, "{attempt}"@, text::decimal(context.attempt_no@ as nat));
    let r4 = text::replaced(r3, "{node_name}"@, context.node_name@);
    let r5 = text::replaced(r4, "{mirror_root}"@, context.mirror_root@);
    let r6 = text::replaced(r5, "{target_dir}"@, written_dir(document, context));
    lemma_plain_front(front, rest, "{mirror_name}"@, context.mirror_name@);
    lemma_plain_front(front, r1, "{run_id}"@, context.run_id.text());
    lemma_plain_front(front, r2, "{attempt}"@, text::decimal(context.attempt_no@ as nat));
    lemma_plain_front(front, r3, "{node_name}"@, context.node_name@);
    lemma_plain_front(front, r4, "{mirror_root}"@, context.mirror_root@);
    lemma_plain_front(front, r5, "{target_dir}"@, written_dir(document, context));
    lemma_plain_front(front, r6, "{published_dir}"@, published_dir(document, context));
}

/// A command is executed as its document writes it, with every text resolved by itself; its limits and
/// its root are those of the document and of the node.
pub proof fn law_commands_are_executed_as_written(
    spec: ProcessRunSpec,
    document: MirrorDocument,
    context: RunSpecContext,
    program: String,
    args: Vec<String>,
    cwd: Option<String>,
    i: int,
)
    requires
        is_compiled(spec, document, context),
        document.sync == (SyncConfig::Command { program, args, cwd }),
    ensures
        spec.runner@ == "process"@,
        spec.program@ == resolved(program@, document, context),
        spec.args@.len() == args@.len(),
        0 <= i < args@.len() ==> spec.args@[i]@ == resolved(args@[i]@, document, context),
        spec.cwd is Some <==> cwd is Some,
        cwd is Some ==> spec.cwd->0@ == resolved(cwd->0@, document, context),
        spec.timeout_seconds == document.run.timeout_seconds,
        spec.mirror_root@ == context.mirror_root@,
{
    let wanted = text::views(args@).map_values(|value: Seq<char>| resolved(value, document, context));
    assert(text::views(spec.args@) == wanted);
    assert(text::views(spec.args@).len() == spec.args@.len());
    assert(wanted.len() == args@.len());
    if 0 <= i < args@.len() {
        assert(text::views(spec.args@)[i] == spec.args@[i]@);
        assert(wanted[i] == resolved(args@[i]@, document, context));
    }
}

/// rsync is executed with the arguments of its document in front, behind them for an atomic mirror the
/// basis of the attempt, and at the end the source and the directory that is written, behind a double
/// hyphen.
pub proof fn law_rsync_copies_the_source_into_the_written_directory(
    spec: ProcessRunSpec,
    document: MirrorDocument,
    context: RunSpecContext,
    source: String,
    args: Vec<String>,
    i: int,
)
    requires
        is_compiled(spec, document, context),
        document.sync == (SyncConfig::Rsync { source, args }),
    ensures
        ({
            let extra: int = if document.mode() == PublicationMode::Atomic { 1 } else { 0 };
            let n = args@.len() as int;
            &&& spec.program@ == "rsync"@
            &&& spec.cwd is None
            &&& spec.args@.len() == n + extra + 3
            &&& 0 <= i < n ==> spec.args@[i]@ == args@[i]@
            &&& extra == 1 ==> spec.publication is Some && spec.args@[n]@ == "--link-dest="@ + (
            *spec.publication->0).basis_dir@
            &&& spec.args@[n + extra]@ == "--"@
            &&& spec.args@[n + extra + 1]@ == source@
            &&& spec.args@[n + extra + 2]@ == path::trim_slashes(spec.target_dir@) + "/"@
            &&& spec.timeout_seconds == document.run.timeout_seconds
            &&& spec.mirror_root@ == context.mirror_root@
        }),
{
    let all = args_of(document, context);
    let extra: int = if document.mode() == PublicationMode::Atomic { 1 } else { 0 };
    let n = args@.len() as int;
    assert(text::views(spec.args@) == all);
    assert(text::views(spec.args@).len() == spec.args@.len());
    assert(all.len() == n + extra + 3);
    assert forall|k: int| 0 <= k < spec.args@.len() implies spec.args@[k]@ == #[trigger] all[k] by {
        assert(text::views(spec.args@)[k] == spec.args@[k]@);
    }
    if 0 <= i < n {
        assert(all[i] == text::views(args@)[i]);
    }
    if extra == 1 {
        assert(all[n] == "--link-dest="@ + basis_dir(context));
    }
    assert(all[n + extra] == "--"@);
    assert(all[n + extra + 1] == source@);
    assert(all[n + extra + 2] == path::trim_slashes(written_dir(document, context)) + "/"@);
}

/// A direct mirror is written where it is served, below the mirror root, and names no publication; an
/// atomic one is written apart, below the publication root, in a directory of its mirror that is named
/// by run and attempt, and is served where the direct one would be.
pub proof fn law_mirrors_are_written_where_their_mode_says(
    spec: ProcessRunSpec,
    document: MirrorDocument,
    context: RunSpecContext,
)
    requires
        is_compiled(spec, document, context),
        document.mode() == PublicationMode::Atomic ==> context.publication_root is Some,
    ensures
        document.mode() == PublicationMode::Direct ==> spec.publication is None && spec.target_dir@ == path::join_path(
            context.mirror_root@,
            document.mirror.target@,
        ),
        document.mode() == PublicationMode::Atomic ==> spec.publication is Some && {
            let publication = *spec.publication->0;
            let own = path::join_path(context.publication_root->0@, context.mirror_name@);
            let attempt = path::join_path(
                path::join_path(own, "attempts"@),
                context.run_id.text() + "-"@ + text::decimal(context.attempt_no@ as nat),
            );
            &&& publication.mirror@ == context.mirror_name@
            &&& publication.publication_root@ == context.publication_root->0@
            &&& publication.published_dir@ == path::join_path(context.mirror_root@, document.mirror.target@)
            &&& publication.candidate_dir@ == path::join_path(attempt, "root"@)
            &&& publication.basis_dir@ == path::join_path(attempt, "basis"@)
            &&& publication.exchange_dir@ == path::join_path(own, "exchange"@)
            &&& publication.gc_dir@ == path::join_path(own, "gc"@)
            &&& spec.target_dir@ == publication.candidate_dir@
        },
{
}

} // verus!
