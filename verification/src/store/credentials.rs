//! Credentials of nodes: issued, imported, revoked, and recognised by the fingerprint of a token.
use super::tables;
use super::tables::CredentialRecord;
use super::tables::CredentialRow;
use super::tables::NodeRecord;
use super::tables::NodeRow;
use super::tables::Store;
use super::tables::StoreError;
use crate::domain::schedule;
use crate::text;
use vstd::prelude::*;
use vstd::utf8::encode_utf8;

verus! {

/// How long, in milliseconds, a use of a credential stands before the next use is noted.
pub const USE_INTERVAL_MS: i64 = 60_000;

/// Whose credential a token is.
#[derive(Debug, PartialEq, Eq)]
pub struct AuthenticatedCredential {
    pub node: String,
    pub credential_id: String,
}

/// What is kept of a token.
pub open spec fn token_digest(token: Seq<char>) -> Seq<char> {
    schedule::fingerprint(encode_utf8(token))
}

/// What is kept of a token.
pub fn token_hash(token: &str) -> (r: String)
    ensures
        r@ == token_digest(token@),
{
    schedule::fingerprint_of(token.as_bytes())
}

/// True when the node has, or has had, a credential.
pub open spec fn has_history(rows: Seq<CredentialRow>, node: Seq<char>) -> bool {
    exists|i: int| 0 <= i < rows.len() && (#[trigger] rows[i]).record.node@ == node
}

/// True when the credential has the fingerprint and is not revoked.
pub open spec fn recognises(row: CredentialRow, hash: Seq<char>) -> bool {
    row.token_hash@ == hash && row.record.revoked_at_ms is None
}

/// The place of the first credential that recognises a fingerprint.
pub open spec fn is_first_match(rows: Seq<CredentialRow>, hash: Seq<char>, i: int) -> bool {
    &&& 0 <= i < rows.len()
    &&& recognises(rows[i], hash)
    &&& forall|k: int| 0 <= k < i ==> !recognises(#[trigger] rows[k], hash)
}

/// True when a credential has been made at a moment, neither used nor revoked since.
pub open spec fn is_new_credential(
    row: CredentialRow,
    node: Seq<char>,
    id: Seq<char>,
    label: Option<Seq<char>>,
    token: Seq<char>,
    now: i64,
) -> bool {
    &&& row.record.node@ == node
    &&& row.record.id@ == id
    &&& text::opt_view(row.record.label) == label
    &&& row.record.created_at_ms == now
    &&& row.record.last_used_at_ms is None
    &&& row.record.revoked_at_ms is None
    &&& row.token_hash@ == token_digest(token)
}

/// True when a node has been made at a moment and no agent has reported for it.
pub open spec fn is_new_node(row: NodeRow, name: Seq<char>, now: i64) -> bool {
    &&& row.record.name@ == name
    &&& row.record.agent_version is None
    &&& row.record.agent_instance_id is None
    &&& row.record.bound_agent_id is None
    &&& row.record.agent_boot_id is None
    &&& row.record.last_seen_at_ms is None
    &&& row.record.active_runs == 0
    &&& row.record.mirror_root_free_bytes is None
    &&& row.record.max_concurrent_runs == 1
    &&& row.registered_at_ms == now
    &&& row.mirror_root is None
}

/// True when the node stands in the table: as it was, or new at the end.
pub open spec fn node_present(before: Seq<NodeRow>, after: Seq<NodeRow>, name: Seq<char>, now: i64) -> bool {
    if tables::node_index(before, name) is Some {
        after == before
    } else {
        after.len() == before.len() + 1 && after.drop_last() == before && is_new_node(after.last(), name, now)
    }
}

/// True when nothing but nodes and credentials differs.
pub open spec fn only_access_changes(before: Store, after: Store) -> bool {
    &&& after.revisions == before.revisions
    &&& after.mirrors == before.mirrors
    &&& after.generations == before.generations
    &&& after.schedules == before.schedules
    &&& after.runs == before.runs
    &&& after.attempts == before.attempts
    &&& after.logs == before.logs
}

/// The credential revoked; the first revocation counts.
pub open spec fn revoked(record: CredentialRecord, now: i64) -> CredentialRecord {
    CredentialRecord {
        revoked_at_ms: match record.revoked_at_ms {
            Some(at) => Some(at),
            None => Some(now),
        },
        ..record
    }
}

/// True when a use at a moment is to be noted: the credential is not revoked, and no use within the
/// interval before stands.
pub open spec fn use_is_noted(record: CredentialRecord, now: i64) -> bool {
    record.revoked_at_ms is None && (record.last_used_at_ms is None || record.last_used_at_ms->0 <= now
        - USE_INTERVAL_MS)
}

fn knows(rows: &Vec<CredentialRow>, node: &str) -> (r: bool)
    ensures
        r == has_history(rows@, node@),
{
    let mut i: usize = 0;
    while i < rows.len()
        invariant
            i <= rows.len(),
            forall|k: int| 0 <= k < i ==> (#[trigger] rows@[k]).record.node@ != node@,
        decreases rows.len() - i,
    {
        if text::same(rows[i].record.node.as_str(), node) {
            return true;
        }
        i = i + 1;
    }
    false
}

/// What revoking a credential comes to.
pub open spec fn revocation_outcome(
    before: Store,
    after: Store,
    node: Seq<char>,
    id: Seq<char>,
    now: i64,
    r: Result<CredentialRecord, StoreError>,
) -> bool {
    match tables::credential_index(before.credentials@, node, id) {
        None => r == Err::<CredentialRecord, StoreError>(StoreError::CredentialNotFound) && after == before,
        Some(i) => {
            &&& r == Ok::<CredentialRecord, StoreError>(revoked(before.credentials@[i].record, now))
            &&& after.credentials@ == before.credentials@.update(
                i,
                CredentialRow {
                    record: revoked(before.credentials@[i].record, now),
                    ..before.credentials@[i]
                },
            )
        },
    }
}

/// What the use of a credential comes to.
pub open spec fn use_outcome(
    before: Store,
    after: Store,
    node: Seq<char>,
    id: Seq<char>,
    now: i64,
    r: bool,
) -> bool {
    &&& r == (match tables::credential_index(before.credentials@, node, id) {
        None => false,
        Some(i) => use_is_noted(before.credentials@[i].record, now),
    })
    &&& !r ==> after == before
    &&& r ==> {
        let i = tables::credential_index(before.credentials@, node, id)->0;
        after.credentials@ == before.credentials@.update(
            i,
            CredentialRow {
                record: CredentialRecord {
                    last_used_at_ms: Some(now),
                    ..before.credentials@[i].record
                },
                ..before.credentials@[i]
            },
        )
    }
}

/// Whom a token stands for.
pub open spec fn is_opened_by(
    rows: Seq<CredentialRow>,
    token: Seq<char>,
    r: Option<AuthenticatedCredential>,
) -> bool {
    &&& r is None <==> forall|i: int|
        0 <= i < rows.len() ==> !recognises(#[trigger] rows[i], token_digest(token))
    &&& forall|i: int| #[trigger]
        is_first_match(rows, token_digest(token), i) ==> r is Some && r->0.node
            == rows[i].record.node && r->0.credential_id == rows[i].record.id
}

/// The node that a token stands for.
pub open spec fn is_opened_for(
    rows: Seq<CredentialRow>,
    token: Seq<char>,
    r: Option<String>,
) -> bool {
    &&& r is None <==> forall|i: int|
        0 <= i < rows.len() ==> !recognises(#[trigger] rows[i], token_digest(token))
    &&& forall|i: int| #[trigger]
        is_first_match(rows, token_digest(token), i) ==> r == Some(
            rows[i].record.node,
        )
}

/// What making a credential comes to.
pub open spec fn issue_outcome(
    before: Store,
    after: Store,
    node: Seq<char>,
    id: Seq<char>,
    label: Option<Seq<char>>,
    token: Seq<char>,
    now: i64,
    r: Result<CredentialRecord, StoreError>,
) -> bool {
    match r {
        Err(error) => {
            &&& error == StoreError::Database(error->Database_0)
            &&& error->Database_0@ == "credential already exists"@
            &&& tables::credential_index(before.credentials@, node, id) is Some
            &&& after == before
        },
        Ok(record) => {
            &&& tables::credential_index(before.credentials@, node, id) is None
            &&& node_present(before.nodes@, after.nodes@, node, now)
            &&& after.credentials@.len() == before.credentials@.len() + 1
            &&& after.credentials@.drop_last() == before.credentials@
            &&& after.credentials@.last().record == record
            &&& is_new_credential(
                after.credentials@.last(),
                node,
                id,
                label,
                token,
                now,
            )
        },
    }
}

/// What taking over a token that a configuration holds comes to.
pub open spec fn import_outcome(
    before: Store,
    after: Store,
    node: Seq<char>,
    token: Seq<char>,
    now: i64,
    r: bool,
) -> bool {
    &&& node_present(before.nodes@, after.nodes@, node, now)
    &&& r == !has_history(before.credentials@, node)
    &&& !r ==> after.credentials == before.credentials
    &&& r ==> {
        &&& after.credentials@.len() == before.credentials@.len() + 1
        &&& after.credentials@.drop_last() == before.credentials@
        &&& is_new_credential(
            after.credentials@.last(),
            node,
            "bootstrap"@,
            Some("legacy-inline"@),
            token,
            now,
        )
    }
}

impl Store {
    fn add_node(&mut self, name: &str, now: i64)
        requires
            old(self).wf(),
        ensures
            final(self).wf(),
            only_access_changes(*old(self), *final(self)),
            final(self).credentials == old(self).credentials,
            node_present(old(self).nodes@, final(self).nodes@, name@, now),
    {
        proof {
            tables::lemma_node_index(self.nodes@, name@);
        }
        if tables::find_node(&self.nodes, name).is_none() {
            let ghost before = self.nodes@;
            let row: NodeRow = NodeRow {
                record: NodeRecord {
                    name: name.to_owned(),
                    agent_version: None,
                    agent_instance_id: None,
                    bound_agent_id: None,
                    agent_boot_id: None,
                    last_seen_at_ms: None,
                    active_runs: 0,
                    mirror_root_free_bytes: None,
                    max_concurrent_runs: 1,
                },
                registered_at_ms: now,
                mirror_root: None,
            };
            self.nodes.push(row);
            assert(self.nodes@.drop_last() == before);
        }
    }

    /// Takes over a token that the configuration carries, unless the node has, or has had, a
    /// credential. True when it was taken over.
    pub fn import_legacy_credential(&mut self, node: &str, token: &str, now: i64) -> (r: bool)
        requires
            old(self).wf(),
        ensures
            final(self).wf(),
            only_access_changes(*old(self), *final(self)),
            import_outcome(*old(self), *final(self), node@, token@, now, r),
    {
        self.add_node(node, now);
        let ghost before = self.credentials@;
        if knows(&self.credentials, node) {
            return false;
        }
        let row: CredentialRow = CredentialRow {
            record: CredentialRecord {
                node: node.to_owned(),
                id: "bootstrap".to_owned(),
                label: Some("legacy-inline".to_owned()),
                created_at_ms: now,
                last_used_at_ms: None,
                revoked_at_ms: None,
            },
            token_hash: token_hash(token),
        };
        self.credentials.push(row);
        assert(self.credentials@.drop_last() == before);
        true
    }

    /// Takes over a token that the configuration carries, unless the node has, or has had, a
    /// credential.
    pub fn upsert_credential(&mut self, node: &str, token: &str, now: i64)
        requires
            old(self).wf(),
        ensures
            final(self).wf(),
            only_access_changes(*old(self), *final(self)),
            node_present(old(self).nodes@, final(self).nodes@, node@, now),
            has_history(old(self).credentials@, node@) ==> final(self).credentials == old(self).credentials,
            !has_history(old(self).credentials@, node@) ==> {
                &&& final(self).credentials@.len() == old(self).credentials@.len() + 1
                &&& final(self).credentials@.drop_last() == old(self).credentials@
                &&& is_new_credential(
                    final(self).credentials@.last(),
                    node@,
                    "bootstrap"@,
                    Some("legacy-inline"@),
                    token@,
                    now,
                )
            },
    {
        let _ = self.import_legacy_credential(node, token, now);
    }

    /// Gives a node a credential; a node that is not known yet is added. A second credential of one
    /// identifier is refused.
    pub fn issue_credential(
        &mut self,
        node: &str,
        credential_id: &str,
        label: Option<&str>,
        token: &str,
        now: i64,
    ) -> (r: Result<CredentialRecord, StoreError>)
        requires
            old(self).wf(),
        ensures
            final(self).wf(),
            only_access_changes(*old(self), *final(self)),
            issue_outcome(
                *old(self),
                *final(self),
                node@,
                credential_id@,
                match label {
                    Some(value) => Some(value@),
                    None => None,
                },
                token@,
                now,
                r,
            ),
    {
        proof {
            tables::lemma_credential_index(self.credentials@, node@, credential_id@);
        }
        if tables::find_credential(&self.credentials, node, credential_id).is_some() {
            return Err(StoreError::Database("credential already exists".to_owned()));
        }
        self.add_node(node, now);
        let ghost before = self.credentials@;
        let record: CredentialRecord = CredentialRecord {
            node: node.to_owned(),
            id: credential_id.to_owned(),
            label: match label {
                Some(value) => Some(value.to_owned()),
                None => None,
            },
            created_at_ms: now,
            last_used_at_ms: None,
            revoked_at_ms: None,
        };
        self.credentials.push(CredentialRow { record: record.clone(), token_hash: token_hash(token) });
        assert(self.credentials@.drop_last() == before);
        Ok(record)
    }

    /// Revokes a credential. A second revocation changes nothing.
    pub fn revoke_credential(&mut self, node: &str, id: &str, now: i64) -> (r: Result<CredentialRecord, StoreError>)
        requires
            old(self).wf(),
        ensures
            final(self).wf(),
            only_access_changes(*old(self), *final(self)),
            final(self).nodes == old(self).nodes,
            revocation_outcome(*old(self), *final(self), node@, id@, now, r),
    {
        proof {
            tables::lemma_credential_index(self.credentials@, node@, id@);
        }
        match tables::find_credential(&self.credentials, node, id) {
            None => Err(StoreError::CredentialNotFound),
            Some(i) => {
                if self.credentials[i].record.revoked_at_ms.is_none() {
                    let row: &mut CredentialRow = &mut self.credentials[i];
                    row.record.revoked_at_ms = Some(now);
                }
                proof {
                    let was = old(self).credentials@[i as int];
                    let is = CredentialRow { record: revoked(was.record, now), ..was };
                    assert(self.credentials@ =~= old(self).credentials@.update(i as int, is));
                }
                Ok(self.credentials[i].record.clone())
            },
        }
    }

    /// Whose token this is: the first credential that is not revoked and has its fingerprint.
    pub fn authenticate_credential(&self, token: &str) -> (r: Option<AuthenticatedCredential>)
        ensures
            is_opened_by(self.credentials@, token@, r),
    {
        let hash: String = token_hash(token);
        let mut i: usize = 0;
        while i < self.credentials.len()
            invariant
                i <= self.credentials.len(),
                hash@ == token_digest(token@),
                forall|k: int| 0 <= k < i ==> !recognises(#[trigger] self.credentials@[k], hash@),
            decreases self.credentials.len() - i,
        {
            let row: &CredentialRow = &self.credentials[i];
            if row.record.revoked_at_ms.is_none() && text::same(row.token_hash.as_str(), hash.as_str()) {
                assert(recognises(self.credentials@[i as int], hash@));
                return Some(
                    AuthenticatedCredential { node: row.record.node.clone(), credential_id: row.record.id.clone() },
                );
            }
            i = i + 1;
        }
        None
    }

    /// The node of a token.
    pub fn authenticate_node(&self, token: &str) -> (r: Option<String>)
        ensures
            is_opened_for(self.credentials@, token@, r),
    {
        match self.authenticate_credential(token) {
            Some(credential) => Some(credential.node),
            None => None,
        }
    }

    /// Notes that a credential was used, at most once in an interval. True when it was noted.
    pub fn mark_credential_used(&mut self, node: &str, id: &str, now: i64) -> (r: bool)
        requires
            old(self).wf(),
        ensures
            final(self).wf(),
            only_access_changes(*old(self), *final(self)),
            final(self).nodes == old(self).nodes,
            use_outcome(*old(self), *final(self), node@, id@, now, r),
    {
        proof {
            tables::lemma_credential_index(self.credentials@, node@, id@);
        }
        match tables::find_credential(&self.credentials, node, id) {
            None => false,
            Some(i) => {
                if self.credentials[i].record.revoked_at_ms.is_some() {
                    return false;
                }
                if let Some(at) = self.credentials[i].record.last_used_at_ms {
                    if at as i128 > now as i128 - USE_INTERVAL_MS as i128 {
                        return false;
                    }
                }
                let row: &mut CredentialRow = &mut self.credentials[i];
                row.record.last_used_at_ms = Some(now);
                true
            },
        }
    }
}

/// Revoking a credential twice is revoking it once: the moment of the first revocation stays.
pub proof fn law_revocation_is_idempotent(record: CredentialRecord, first: i64, second: i64)
    ensures
        revoked(revoked(record, first), second) == revoked(record, first),
{
}

/// A revoked credential opens nothing, whatever token is presented.
pub proof fn law_revoked_credentials_open_nothing(row: CredentialRow, now: i64, hash: Seq<char>)
    ensures
        !recognises(CredentialRow { record: revoked(row.record, now), ..row }, hash),
        !use_is_noted(revoked(row.record, now), now),
{
}

/// A node that has ever had a credential keeps a history: issuing, revoking and noting a use never
/// take it away, so that a token in the configuration is not taken over again.
pub proof fn law_history_stays(before: Seq<CredentialRow>, after: Seq<CredentialRow>, node: Seq<char>)
    requires
        has_history(before, node),
        after.len() >= before.len(),
        forall|i: int| 0 <= i < before.len() ==> (#[trigger] after[i]).record.node@ == before[i].record.node@,
    ensures
        has_history(after, node),
{
    let i = choose|i: int| 0 <= i < before.len() && (#[trigger] before[i]).record.node@ == node;
    assert(after[i].record.node@ == node);
}

/// Once a use is noted, no further use is noted within the interval.
pub proof fn law_uses_are_throttled(record: CredentialRecord, first: i64, second: i64)
    requires
        second < first + USE_INTERVAL_MS,
    ensures
        !use_is_noted((CredentialRecord { last_used_at_ms: Some(first), ..record }), second),
{
}

/// A token opens for the node of a credential exactly where a credential that was not revoked was made
/// with the same fingerprint.
pub proof fn law_tokens_open_for_the_node_of_their_credential(
    rows: Seq<CredentialRow>,
    token: Seq<char>,
    who: Option<AuthenticatedCredential>,
    node: Option<String>,
)
    requires
        is_opened_by(rows, token, who),
        is_opened_for(rows, token, node),
    ensures
        who is Some <==> exists|i: int|
            0 <= i < rows.len() && (#[trigger] rows[i]).token_hash@ == schedule::fingerprint(encode_utf8(token))
                && rows[i].record.revoked_at_ms is None,
        who is Some ==> exists|i: int|
            0 <= i < rows.len() && (#[trigger] rows[i]).token_hash@ == schedule::fingerprint(encode_utf8(token))
                && rows[i].record.revoked_at_ms is None && who->0.node == rows[i].record.node && who->0.credential_id
                == rows[i].record.id,
        node is Some <==> who is Some,
        who is Some ==> node->0 == who->0.node,
{
    let hash = token_digest(token);
    if exists|i: int| 0 <= i < rows.len() && recognises(#[trigger] rows[i], hash) {
        let i = choose|i: int| 0 <= i < rows.len() && recognises(#[trigger] rows[i], hash);
        let first = lemma_first_match(rows, hash, i);
        assert(is_first_match(rows, hash, first));
    }
}

/// Of the credentials with a fingerprint one comes first.
pub proof fn lemma_first_match(rows: Seq<CredentialRow>, hash: Seq<char>, i: int) -> (first: int)
    requires
        0 <= i < rows.len(),
        recognises(rows[i], hash),
    ensures
        is_first_match(rows, hash, first),
    decreases i,
{
    if forall|k: int| 0 <= k < i ==> !recognises(#[trigger] rows[k], hash) {
        i
    } else {
        let k = choose|k: int| 0 <= k < i && recognises(#[trigger] rows[k], hash);
        lemma_first_match(rows, hash, k)
    }
}

/// A credential is revoked for good and alone: its own row bears the moment of the first revocation, and
/// every other row stays; only a credential that is not known is refused.
pub proof fn law_revoking_marks_one_credential(
    before: Store,
    after: Store,
    now: i64,
    r: Result<CredentialRecord, StoreError>,
    i: int,
)
    requires
        before.wf(),
        0 <= i < before.credentials@.len(),
        revocation_outcome(
            before,
            after,
            before.credentials@[i].record.node@,
            before.credentials@[i].record.id@,
            now,
            r,
        ),
    ensures
        r is Ok,
        r->Ok_0 == after.credentials@[i].record,
        after.credentials@[i].record.revoked_at_ms is Some,
        before.credentials@[i].record.revoked_at_ms is None ==> after.credentials@[i].record.revoked_at_ms == Some(now),
        before.credentials@[i].record.revoked_at_ms is Some ==> after.credentials@[i] == before.credentials@[i],
        after.credentials@[i].record.node == before.credentials@[i].record.node,
        after.credentials@[i].record.id == before.credentials@[i].record.id,
        after.credentials@[i].record.label == before.credentials@[i].record.label,
        after.credentials@[i].record.created_at_ms == before.credentials@[i].record.created_at_ms,
        after.credentials@[i].record.last_used_at_ms == before.credentials@[i].record.last_used_at_ms,
        after.credentials@[i].token_hash == before.credentials@[i].token_hash,
        after.credentials@.len() == before.credentials@.len(),
        forall|o: int|
            0 <= o < before.credentials@.len() && o != i ==> #[trigger] after.credentials@[o] == before.credentials@[o],
{
    super::lookup::lemma_own_credential(before.credentials@, i);
}

/// What is not known is neither revoked nor used.
pub proof fn law_unknown_credentials_are_refused(
    before: Store,
    after_revoking: Store,
    after_using: Store,
    node: Seq<char>,
    id: Seq<char>,
    now: i64,
    r: Result<CredentialRecord, StoreError>,
    noted: bool,
)
    requires
        forall|i: int|
            0 <= i < before.credentials@.len() ==> !((#[trigger] before.credentials@[i]).record.node@ == node
                && before.credentials@[i].record.id@ == id),
        revocation_outcome(before, after_revoking, node, id, now, r),
        use_outcome(before, after_using, node, id, now, noted),
    ensures
        r == Err::<CredentialRecord, StoreError>(StoreError::CredentialNotFound),
        after_revoking == before,
        !noted,
        after_using == before,
{
    tables::lemma_credential_index(before.credentials@, node, id);
}

/// The use of a credential that was not revoked is noted where none was noted in the minute before, and
/// nothing but the moment of the latest use changes.
pub proof fn law_uses_are_noted_once_a_minute(before: Store, after: Store, now: i64, noted: bool, i: int)
    requires
        before.wf(),
        0 <= i < before.credentials@.len(),
        use_outcome(
            before,
            after,
            before.credentials@[i].record.node@,
            before.credentials@[i].record.id@,
            now,
            noted,
        ),
    ensures
        noted <==> before.credentials@[i].record.revoked_at_ms is None && (before.credentials@[i].record.last_used_at_ms is None
            || now - before.credentials@[i].record.last_used_at_ms->0 >= 60_000),
        !noted ==> after == before,
        noted ==> after.credentials@[i].record.last_used_at_ms == Some(now),
        noted ==> after.credentials@[i].record.revoked_at_ms is None,
        noted ==> after.credentials@[i].token_hash == before.credentials@[i].token_hash,
        noted ==> after.credentials@.len() == before.credentials@.len(),
        noted ==> forall|o: int|
            0 <= o < before.credentials@.len() && o != i ==> #[trigger] after.credentials@[o] == before.credentials@[o],
{
    super::lookup::lemma_own_credential(before.credentials@, i);
}

/// A credential that is made opens at once: its token stands for its node, unless an older one that was
/// not revoked has the same fingerprint. It bears the given name, label and moment, no use is noted of
/// it, and every older credential stays. It is refused exactly where its node has one of that name.
pub proof fn law_made_credentials_open(
    before: Store,
    after: Store,
    node: Seq<char>,
    id: Seq<char>,
    label: Option<Seq<char>>,
    token: Seq<char>,
    now: i64,
    r: Result<CredentialRecord, StoreError>,
    opened: Option<String>,
)
    requires
        issue_outcome(before, after, node, id, label, token, now, r),
        is_opened_for(after.credentials@, token, opened),
    ensures
        r is Err <==> exists|i: int|
            0 <= i < before.credentials@.len() && (#[trigger] before.credentials@[i]).record.node@ == node
                && before.credentials@[i].record.id@ == id,
        r is Err ==> after == before,
        r is Ok ==> {
            &&& r->Ok_0.node@ == node
            &&& r->Ok_0.id@ == id
            &&& text::opt_view(r->Ok_0.label) == label
            &&& r->Ok_0.created_at_ms == now
            &&& r->Ok_0.last_used_at_ms is None
            &&& r->Ok_0.revoked_at_ms is None
            &&& after.credentials@.len() == before.credentials@.len() + 1
            &&& after.credentials@[before.credentials@.len() as int].record == r->Ok_0
            &&& forall|o: int|
                0 <= o < before.credentials@.len() ==> #[trigger] after.credentials@[o] == before.credentials@[o]
            &&& exists|n: int| 0 <= n < after.nodes@.len() && (#[trigger] after.nodes@[n]).record.name@ == node
            &&& opened is Some
            &&& (forall|o: int|
                0 <= o < before.credentials@.len() ==> (#[trigger] before.credentials@[o]).record.revoked_at_ms is Some
                    || before.credentials@[o].token_hash@ != schedule::fingerprint(encode_utf8(token))) ==> opened->0@ == node
        },
{
    tables::lemma_credential_index(before.credentials@, node, id);
    if r is Ok {
        let rows = after.credentials@;
        let last = before.credentials@.len() as int;
        assert forall|o: int| 0 <= o < before.credentials@.len() implies #[trigger] rows[o] == before.credentials@[o] by {
            assert(rows.drop_last()[o] == rows[o]);
        }
        assert(recognises(rows[last], token_digest(token)));
        let first = lemma_first_match(rows, token_digest(token), last);
        assert(is_first_match(rows, token_digest(token), first));
        tables::lemma_node_index(before.nodes@, node);
        if tables::node_index(before.nodes@, node) is Some {
            assert(after.nodes@[tables::node_index(before.nodes@, node)->0].record.name@ == node);
        } else {
            assert(after.nodes@[before.nodes@.len() as int].record.name@ == node);
        }
    }
}

/// A token that a configuration holds is taken over for a node that never had a credential, and for no
/// other: what was issued or revoked is not brought back by it.
pub proof fn law_tokens_of_configurations_come_first_only(
    before: Store,
    after: Store,
    node: Seq<char>,
    token: Seq<char>,
    now: i64,
    taken: bool,
)
    requires
        import_outcome(before, after, node, token, now, taken),
    ensures
        taken <==> forall|i: int| 0 <= i < before.credentials@.len() ==> (#[trigger] before.credentials@[i]).record.node@ != node,
        !taken ==> after.credentials@ == before.credentials@,
        taken ==> {
            let row = after.credentials@[before.credentials@.len() as int];
            &&& after.credentials@.len() == before.credentials@.len() + 1
            &&& row.record.node@ == node
            &&& row.record.revoked_at_ms is None
            &&& row.record.last_used_at_ms is None
            &&& row.record.created_at_ms == now
            &&& row.token_hash@ == schedule::fingerprint(encode_utf8(token))
            &&& forall|o: int|
                0 <= o < before.credentials@.len() ==> #[trigger] after.credentials@[o] == before.credentials@[o]
        },
        exists|n: int| 0 <= n < after.nodes@.len() && (#[trigger] after.nodes@[n]).record.name@ == node,
{
    if taken {
        assert forall|o: int| 0 <= o < before.credentials@.len() implies #[trigger] after.credentials@[o]
            == before.credentials@[o] by {
            assert(after.credentials@.drop_last()[o] == after.credentials@[o]);
        }
    }
    tables::lemma_node_index(before.nodes@, node);
    if tables::node_index(before.nodes@, node) is Some {
        assert(after.nodes@[tables::node_index(before.nodes@, node)->0].record.name@ == node);
    } else {
        assert(after.nodes@[before.nodes@.len() as int].record.name@ == node);
    }
}

/// A node that first comes up is known by its name alone and may run one thing at a time; one that is
/// known stays as it is, and so do all others.
pub proof fn law_new_nodes_know_nothing(before: Seq<NodeRow>, after: Seq<NodeRow>, name: Seq<char>, now: i64)
    requires
        node_present(before, after, name, now),
    ensures
        forall|o: int| 0 <= o < before.len() ==> #[trigger] after[o] == before[o],
        (exists|n: int| 0 <= n < before.len() && (#[trigger] before[n]).record.name@ == name) ==> after == before,
        (forall|n: int| 0 <= n < before.len() ==> (#[trigger] before[n]).record.name@ != name) ==> {
            let row = after[before.len() as int];
            &&& after.len() == before.len() + 1
            &&& row.record.name@ == name
            &&& row.record.max_concurrent_runs == 1
            &&& row.record.active_runs == 0
            &&& row.record.bound_agent_id is None
            &&& row.record.agent_instance_id is None
            &&& row.record.agent_boot_id is None
            &&& row.record.agent_version is None
            &&& row.record.last_seen_at_ms is None
            &&& row.record.mirror_root_free_bytes is None
            &&& row.mirror_root is None
            &&& row.registered_at_ms == now
        },
{
    tables::lemma_node_index(before, name);
    if tables::node_index(before, name) is None {
        assert forall|o: int| 0 <= o < before.len() implies #[trigger] after[o] == before[o] by {
            assert(after.drop_last()[o] == after[o]);
        }
    }
}

} // verus!
