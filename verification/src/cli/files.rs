//! The files of a configuration as they are sent, and the file of an issued secret.
use crate::domain::config::BundleFile;
use crate::path;
use crate::store::ranked;
use crate::store::ranked::Ranked;
use crate::text;
use vstd::prelude::*;

verus! {

impl Ranked for BundleFile {
    open spec fn precedes(&self, other: &Self) -> bool {
        text::lex_less(self.path@, other.path@)
    }

    fn is_before(&self, other: &Self) -> bool {
        text::less(self.path.as_str(), other.path.as_str())
    }

    proof fn lemma_order(a: &Self, b: &Self, c: &Self) {
        text::lemma_lex_less_total(a.path@, b.path@);
        text::lemma_lex_less_total(b.path@, a.path@);
        text::lemma_lex_less_total(a.path@, c.path@);
        text::lemma_lex_less_total(b.path@, c.path@);
        if text::lex_less(a.path@, b.path@) && text::lex_less(b.path@, c.path@) {
            text::lemma_lex_less_transitive(a.path@, b.path@, c.path@);
        }
    }
}

/// The files of a configuration in the order in which they are sent: by their paths.
pub fn bundle(files: Vec<BundleFile>) -> (r: Vec<BundleFile>)
    ensures
        ranked::in_rank(r@),
        r@.to_multiset() == files@.to_multiset(),
{
    ranked::ranked(files)
}

/// True of a file that belongs to a configuration.
pub fn belongs(name: &str) -> (r: bool)
    ensures
        r == (path::suffix_of(name@) == Some("toml"@)),
{
    match path::suffix(name) {
        Some(suffix) => text::same(suffix.as_str(), "toml"),
        None => false,
    }
}

/// The path of a file below the directory of a configuration, as it is sent: with slashes.
pub fn bundle_path(relative: &str) -> (r: String)
    ensures
        r@ == text::replaced(relative@, "\\"@, "/"@),
{
    proof {
        reveal_strlit("\\");
    }
    text::replace_all(relative, "\\", "/")
}

/// Why a secret cannot be kept in a file, if it cannot: nothing is overwritten, and the directory
/// must exist.
pub open spec fn secret_fault(file: Seq<char>, exists: bool, directory: bool) -> Option<Seq<char>> {
    if exists {
        Some("refusing to overwrite existing token file "@ + file)
    } else if path::parent_of(file) is None {
        Some("token file has no parent"@)
    } else if !directory {
        Some("token file parent does not exist or is not a directory: "@ + path::parent_of(file)->0)
    } else {
        None
    }
}

/// Plans the file in which a secret is written before it takes its place; `directory` tells whether
/// the directory of the place exists.
pub fn prepare(file: &str, exists: bool, directory: bool, fresh: &str) -> (r: Result<String, String>)
    ensures
        match r {
            Ok(temporary) => secret_fault(file@, exists, directory) is None && temporary@ == path::join_path(
                path::parent_of(file@)->0,
                ".lmt-token-"@ + fresh@ + ".tmp"@,
            ),
            Err(error) => secret_fault(file@, exists, directory) == Some(error@),
        },
{
    if exists {
        return Err(text::join2("refusing to overwrite existing token file ", file));
    }
    match path::parent(file) {
        None => Err("token file has no parent".to_owned()),
        Some(parent) => {
            if !directory {
                return Err(
                    text::join2(
                        "token file parent does not exist or is not a directory: ",
                        parent.as_str(),
                    ),
                );
            }
            let name: String = text::join3(".lmt-token-", fresh, ".tmp");
            Ok(path::join(parent.as_str(), name.as_str()))
        },
    }
}

/// A secret is kept in a file that is not there yet, in a directory that is.
pub proof fn law_secrets_go_into_new_files(file: Seq<char>, exists: bool, directory: bool)
    ensures
        secret_fault(file, exists, directory) is None <==> !exists && directory && path::parent_of(file) is Some,
{
}

/// Files are ordered by their paths.
pub proof fn law_files_are_ordered_by_path(a: BundleFile, b: BundleFile)
    ensures
        a.precedes(&b) <==> text::lex_less(a.path@, b.path@),
        a.path@ == b.path@ ==> !a.precedes(&b),
        a.path@ != b.path@ ==> a.precedes(&b) || b.precedes(&a),
{
    text::lemma_lex_less_total(a.path@, b.path@);
}

} // verus!
