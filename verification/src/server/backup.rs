//! Backups: what their manifests say, and whether it is so.
use crate::outside;
use crate::path;
use crate::protocol::BackupManifest;
use crate::store::ranked;
use crate::store::ranked::in_rank;
use crate::store::ranked::Ranked;
use crate::text;
use vstd::prelude::*;

verus! {

/// True of the identifiers of backups: twenty-six ASCII letters and digits.
pub open spec fn is_backup_id(id: Seq<char>) -> bool {
    id.len() == 26 && forall|i: int| 0 <= i < id.len() ==> text::is_alphanumeric(#[trigger] id[i])
}

/// Refuses what is no identifier of a backup.
pub fn validate_id(id: &str) -> (r: Result<(), String>)
    ensures
        r is Ok <==> is_backup_id(id@),
        r is Err ==> r->Err_0@ == "backup_invalid: invalid backup ID"@,
{
    let chars: Vec<char> = text::chars_of(id);
    if chars.len() != 26 {
        return Err("backup_invalid: invalid backup ID".to_owned());
    }
    let mut i: usize = 0;
    while i < chars.len()
        invariant
            i <= chars.len(),
            chars@ == id@,
            forall|k: int| 0 <= k < i ==> text::is_alphanumeric(#[trigger] id@[k]),
        decreases chars.len() - i,
    {
        if !text::alphanumeric(chars[i]) {
            assert(!text::is_alphanumeric(id@[i as int]));
            return Err("backup_invalid: invalid backup ID".to_owned());
        }
        i = i + 1;
    }
    Ok(())
}

/// Where the database and the manifest of a backup stand.
pub fn paths(directory: &str, id: &str) -> (r: (String, String))
    ensures
        r.0@ == path::join_path(directory@, id@ + ".sqlite"@),
        r.1@ == path::join_path(directory@, id@ + ".json"@),
{
    (
        path::join(directory, text::join2(id, ".sqlite").as_str()),
        path::join(directory, text::join2(id, ".json").as_str()),
    )
}

/// The checksum of a database and its size.
pub fn checksum(bytes: &[u8]) -> (r: (String, u64))
    ensures
        r.0@ == outside::hex_text(outside::sha256_digest(bytes@)),
        r.1 == bytes@.len(),
{
    let digest: Vec<u8> = outside::sha256(bytes);
    (outside::hex_encode(digest.as_slice()), bytes.len() as u64)
}

/// What a database was found to be.
#[derive(Debug, PartialEq, Eq)]
pub struct DatabaseFacts {
    pub sha256: String,
    pub size: u64,
    pub integrity: String,
    pub schema_version: u32,
    pub config_revision: u64,
}

/// Why a database is damaged, where it is.
pub open spec fn damage(integrity: Seq<char>) -> Option<Seq<char>> {
    if integrity == "ok"@ {
        None
    } else {
        Some("backup_invalid: SQLite integrity check failed: "@ + integrity)
    }
}

/// Refuses a damaged database, given what the check of its integrity said.
pub fn verify_path(integrity: &str) -> (r: Result<(), String>)
    ensures
        match r {
            Ok(()) => damage(integrity@) is None,
            Err(message) => damage(integrity@) == Some(message@),
        },
{
    if text::same(integrity, "ok") {
        Ok(())
    } else {
        Err(text::join2("backup_invalid: SQLite integrity check failed: ", integrity))
    }
}

/// Why a database is not the one that a manifest describes: the first of a wrong checksum or size,
/// damage, and a wrong schema or revision.
pub open spec fn file_fault(manifest: BackupManifest, facts: DatabaseFacts) -> Option<Seq<char>> {
    if facts.sha256@ != manifest.sha256@ || facts.size != manifest.database_size {
        Some("backup_invalid: checksum or size mismatch"@)
    } else if damage(facts.integrity@) is Some {
        damage(facts.integrity@)
    } else if facts.schema_version != manifest.schema_version || facts.config_revision != manifest.config_revision {
        Some("backup_invalid: manifest metadata mismatch"@)
    } else {
        None
    }
}

/// Refuses a database that is not the one that a manifest describes.
pub fn verify_file(manifest: &BackupManifest, facts: &DatabaseFacts) -> (r: Result<(), String>)
    ensures
        match r {
            Ok(()) => file_fault(*manifest, *facts) is None,
            Err(message) => file_fault(*manifest, *facts) == Some(message@),
        },
{
    if !text::same(facts.sha256.as_str(), manifest.sha256.as_str()) || facts.size != manifest.database_size {
        return Err("backup_invalid: checksum or size mismatch".to_owned());
    }
    if let Err(message) = verify_path(facts.integrity.as_str()) {
        return Err(message);
    }
    if facts.schema_version != manifest.schema_version || facts.config_revision != manifest.config_revision {
        return Err("backup_invalid: manifest metadata mismatch".to_owned());
    }
    Ok(())
}

/// What verifying a backup comes to.
pub open spec fn verification(
    id: Seq<char>,
    manifest: BackupManifest,
    facts: DatabaseFacts,
    r: Result<(), String>,
) -> bool {
    match r {
        Ok(()) => is_backup_id(id) && manifest.id@ == id && file_fault(manifest, facts) is None,
        Err(message) => if !is_backup_id(id) {
            message@ == "backup_invalid: invalid backup ID"@
        } else if manifest.id@ != id {
            message@ == "backup_invalid: manifest ID mismatch"@
        } else {
            file_fault(manifest, facts) == Some(message@)
        },
    }
}

/// Refuses a backup whose manifest is that of another one, or whose database is not the one that its
/// manifest describes.
pub fn verify(id: &str, manifest: &BackupManifest, facts: &DatabaseFacts) -> (r: Result<(), String>)
    ensures
        verification(id@, *manifest, *facts, r),
{
    if let Err(message) = validate_id(id) {
        return Err(message);
    }
    if !text::same(manifest.id.as_str(), id) {
        return Err("backup_invalid: manifest ID mismatch".to_owned());
    }
    verify_file(manifest, facts)
}

impl Ranked for BackupManifest {
    open spec fn precedes(&self, other: &Self) -> bool {
        text::lex_less(other.created_at@, self.created_at@) || (other.created_at@ == self.created_at@ && text::lex_less(
            other.id@,
            self.id@,
        ))
    }

    fn is_before(&self, other: &Self) -> (r: bool) {
        text::less(other.created_at.as_str(), self.created_at.as_str()) || (text::same(
            other.created_at.as_str(),
            self.created_at.as_str(),
        ) && text::less(other.id.as_str(), self.id.as_str()))
    }

    proof fn lemma_order(a: &Self, b: &Self, c: &Self) {
        text::lemma_lex_less_total(a.created_at@, b.created_at@);
        text::lemma_lex_less_total(b.created_at@, c.created_at@);
        text::lemma_lex_less_total(a.id@, b.id@);
        if text::lex_less(c.created_at@, b.created_at@) && text::lex_less(b.created_at@, a.created_at@) {
            text::lemma_lex_less_transitive(c.created_at@, b.created_at@, a.created_at@);
        }
        if text::lex_less(c.id@, b.id@) && text::lex_less(b.id@, a.id@) {
            text::lemma_lex_less_transitive(c.id@, b.id@, a.id@);
        }
    }
}

/// The manifests whose databases are there.
pub open spec fn complete(found: Seq<(BackupManifest, bool)>) -> Seq<BackupManifest>
    decreases found.len(),
{
    if found.len() == 0 {
        Seq::empty()
    } else if found.last().1 {
        complete(found.drop_last()).push(found.last().0)
    } else {
        complete(found.drop_last())
    }
}

/// Lists the backups whose databases are there, the latest first.
pub fn list(found: Vec<(BackupManifest, bool)>) -> (r: Vec<BackupManifest>)
    ensures
        in_rank(r@),
        r@.to_multiset() == complete(found@).to_multiset(),
{
    let ghost all = found@;
    let mut out: Vec<BackupManifest> = Vec::new();
    assert(all.take(0) =~= Seq::empty());
    for entry in it: found
        invariant
            it.seq() == all,
            out@ == complete(all.take(it.index())),
    {
        proof {
            assert(all.take(it.index() + 1).drop_last() == all.take(it.index()));
            assert(all.take(it.index() + 1).last() == entry);
        }
        if entry.1 {
            out.push(entry.0);
        }
    }
    assert(all.take(all.len() as int) == all);
    ranked::ranked(out)
}

/// The latest moment among some that can be read, in whole seconds.
pub open spec fn latest_seconds(manifests: Seq<BackupManifest>) -> Option<u64>
    decreases manifests.len(),
{
    if manifests.len() == 0 {
        None
    } else {
        let before = latest_seconds(manifests.drop_last());
        match super::views::written_seconds(manifests.last().created_at@) {
            None => before,
            Some(seconds) => if before is Some && before->0 >= seconds {
                before
            } else {
                Some(seconds)
            },
        }
    }
}

/// When the latest backup was made, in whole seconds since the epoch.
pub fn backup_recency(manifests: &Vec<BackupManifest>) -> (r: Option<u64>)
    ensures
        r == latest_seconds(manifests@),
{
    let mut best: Option<u64> = None;
    let mut i: usize = 0;
    assert(manifests@.take(0) =~= Seq::empty());
    while i < manifests.len()
        invariant
            i <= manifests.len(),
            best == latest_seconds(manifests@.take(i as int)),
        decreases manifests.len() - i,
    {
        assert(manifests@.take(i + 1).drop_last() == manifests@.take(i as int));
        if let Some(seconds) = super::views::backup_manifest_timestamp_seconds(manifests[i].created_at.as_str()) {
            let ahead: bool = match best {
                Some(known) => known < seconds,
                None => true,
            };
            if ahead {
                best = Some(seconds);
            }
        }
        i = i + 1;
    }
    assert(manifests@.take(manifests@.len() as int) == manifests@);
    best
}

/// Whether everything that was written came into the database.
pub open spec fn checkpoint_outcome(busy: u32, frames: u32, checkpointed: u32, r: Result<(), String>) -> bool {
    &&& r is Ok <==> busy == 0 && checkpointed == frames
    &&& r is Err ==> r->Err_0@ == "restore_requires_offline: current SQLite WAL checkpoint was incomplete ("@
        + text::decimal(checkpointed as nat) + "/"@ + text::decimal(frames as nat) + (", busy="@ + text::decimal(
        busy as nat,
    ) + ")"@)
}

/// Refuses to go on while the write-ahead log of a database is not written back in full.
pub fn checkpoint_complete(busy: u32, frames: u32, checkpointed: u32) -> (r: Result<(), String>)
    ensures
        checkpoint_outcome(busy, frames, checkpointed, r),
{
    if busy == 0 && checkpointed == frames {
        return Ok(());
    }
    Err(
        text::join5(
            "restore_requires_offline: current SQLite WAL checkpoint was incomplete (",
            text::decimal_text(checkpointed as u64).as_str(),
            "/",
            text::decimal_text(frames as u64).as_str(),
            text::join3(", busy=", text::decimal_text(busy as u64).as_str(), ")").as_str(),
        ),
    )
}

/// A verified backup is intact: its database has the checksum and the size that were noted when it
/// was made.
pub proof fn law_verified_backups_are_intact(manifest: BackupManifest, facts: DatabaseFacts)
    requires
        file_fault(manifest, facts) is None,
    ensures
        facts.sha256@ == manifest.sha256@,
        facts.size == manifest.database_size,
        facts.integrity@ == "ok"@,
        facts.schema_version == manifest.schema_version,
        facts.config_revision == manifest.config_revision,
{
}

/// A backup is taken for good exactly where it is named as it should be and everything that was noted of
/// it when it was made is so of it now.
pub proof fn law_backups_are_what_was_noted(
    id: Seq<char>,
    manifest: BackupManifest,
    facts: DatabaseFacts,
    r: Result<(), String>,
)
    requires
        verification(id, manifest, facts, r),
    ensures
        r is Ok <==> {
            &&& manifest.id@ == id
            &&& id.len() == 26
            &&& forall|i: int| 0 <= i < id.len() ==> text::is_alphanumeric(#[trigger] id[i])
            &&& manifest.sha256@ == facts.sha256@
            &&& manifest.database_size == facts.size
            &&& facts.integrity@ == "ok"@
            &&& manifest.schema_version == facts.schema_version
            &&& manifest.config_revision == facts.config_revision
        },
{
}

/// Everything came into the database where nobody stood in the way and as much came in as was written.
pub proof fn law_checkpoints_are_whole(busy: u32, frames: u32, checkpointed: u32, r: Result<(), String>)
    requires
        checkpoint_outcome(busy, frames, checkpointed, r),
    ensures
        r is Ok ==> checkpointed == frames && busy == 0,
        r is Err ==> checkpointed != frames || busy > 0,
{
}

/// The backups that are listed are the complete ones.
pub proof fn law_complete_backups_are_listed(found: Seq<(BackupManifest, bool)>, manifest: BackupManifest)
    ensures
        complete(found).contains(manifest) <==> found.contains((manifest, true)),
        complete(found).len() <= found.len(),
    decreases found.len(),
{
    let all = complete(found);
    if found.len() > 0 {
        let rest = found.drop_last();
        let before = complete(rest);
        law_complete_backups_are_listed(rest, manifest);
        if all.contains(manifest) {
            let i = choose|i: int| 0 <= i < all.len() && all[i] == manifest;
            if i < before.len() {
                assert(before[i] == manifest);
                let k = choose|k: int| 0 <= k < rest.len() && rest[k] == (manifest, true);
                assert(found[k] == (manifest, true));
            } else {
                assert(found[found.len() - 1] == (manifest, true));
            }
        }
        if found.contains((manifest, true)) {
            let k = choose|k: int| 0 <= k < found.len() && found[k] == (manifest, true);
            if k < rest.len() {
                assert(rest[k] == (manifest, true));
                let i = choose|i: int| 0 <= i < before.len() && before[i] == manifest;
                assert(all[i] == manifest);
            } else {
                assert(all[all.len() - 1] == manifest);
            }
        }
    }
}

/// The latest backup is the one whose moment comes last: no moment that can be read comes after it, and
/// it is the moment of one of them.
pub proof fn law_latest_backup_is_the_latest(manifests: Seq<BackupManifest>)
    ensures
        match latest_seconds(manifests) {
            None => forall|i: int|
                0 <= i < manifests.len() ==> super::views::written_seconds((#[trigger] manifests[i]).created_at@) is None,
            Some(latest) => (exists|i: int|
                0 <= i < manifests.len() && super::views::written_seconds((#[trigger] manifests[i]).created_at@) == Some(latest))
                && forall|i: int|
                0 <= i < manifests.len() && super::views::written_seconds((#[trigger] manifests[i]).created_at@) is Some
                    ==> super::views::written_seconds(manifests[i].created_at@)->0 <= latest,
        },
    decreases manifests.len(),
{
    if manifests.len() > 0 {
        let rest = manifests.drop_last();
        law_latest_backup_is_the_latest(rest);
        assert forall|i: int| 0 <= i < manifests.len() - 1 implies #[trigger] manifests[i] == rest[i] by {}
        let before = latest_seconds(rest);
        if before is Some {
            let i = choose|i: int|
                0 <= i < rest.len() && super::views::written_seconds((#[trigger] rest[i]).created_at@) == before;
            assert(super::views::written_seconds(manifests[i].created_at@) == before);
        }
        assert(manifests[manifests.len() - 1] == manifests.last());
    }
}

/// Of two backups the one that was made later comes first.
pub proof fn law_later_backups_come_first(a: BackupManifest, b: BackupManifest)
    ensures
        text::lex_less(a.created_at@, b.created_at@) ==> b.precedes(&a) && !a.precedes(&b),
        a.precedes(&b) ==> !text::lex_less(a.created_at@, b.created_at@),
{
    text::lemma_lex_less_total(a.created_at@, b.created_at@);
}

} // verus!
