//! Who may ask for what.
use super::failure::failure;
use super::failure::Failure;
use super::failure::FailureView;
use super::services::borrowed_view;
use crate::store::credentials;
use crate::store::credentials::AuthenticatedCredential;
use crate::store::tables;
use crate::store::tables::CredentialRow;
use crate::store::tables::Store;
use crate::text;
use vstd::prelude::*;

verus! {

/// The token of a bearer header, where there is one.
pub open spec fn bearer_token(authorization: Option<Seq<char>>) -> Option<Seq<char>> {
    match authorization {
        Some(value) => text::without_prefix(value, "Bearer "@),
        None => None,
    }
}

/// The token of a bearer header, where there is one.
pub fn bearer(authorization: Option<&str>) -> (r: Option<String>)
    ensures
        text::opt_view(r) == bearer_token(borrowed_view(authorization)),
{
    match authorization {
        Some(value) => text::strip_prefix(value, "Bearer "),
        None => None,
    }
}

/// How a request without a valid token fails.
pub open spec fn unauthorized() -> FailureView {
    failure(401, "unauthorized"@, "valid bearer token required"@)
}

/// Who comes as the operator: whoever bears the operator's token.
pub open spec fn operator_outcome(authorization: Option<Seq<char>>, token: Seq<char>, r: Result<(), Failure>) -> bool {
    &&& r is Ok <==> bearer_token(authorization) == Some(token)
    &&& r is Err ==> r->Err_0@ == unauthorized()
}

/// Lets the operator in: the one who presents the operator's token.
pub fn operator(authorization: Option<&str>, token: &str) -> (r: Result<(), Failure>)
    ensures
        operator_outcome(borrowed_view(authorization), token@, r),
{
    match bearer(authorization) {
        Some(presented) => if text::same(presented.as_str(), token) {
            Ok(())
        } else {
            Err(Failure::unauthorized())
        },
        None => Err(Failure::unauthorized()),
    }
}

/// The place of the credential that a header presents: the first that is not revoked and has the
/// fingerprint of its token.
pub open spec fn presents(rows: Seq<CredentialRow>, authorization: Option<Seq<char>>, i: int) -> bool {
    bearer_token(authorization) is Some && credentials::is_first_match(
        rows,
        credentials::token_digest(bearer_token(authorization)->0),
        i,
    )
}

/// Who comes as an agent: whoever bears the token of a credential.
pub open spec fn agent_outcome(
    store: Store,
    authorization: Option<Seq<char>>,
    r: Result<AuthenticatedCredential, Failure>,
) -> bool {
    match r {
        Ok(credential) => exists|i: int|
            #[trigger] presents(store.credentials@, authorization, i) && credential.node
                == store.credentials@[i].record.node && credential.credential_id == store.credentials@[i].record.id,
        Err(error) => error@ == unauthorized() && forall|i: int|
            !#[trigger] presents(store.credentials@, authorization, i),
    }
}

/// Lets an agent in: the one who presents a token of a credential that is not revoked.
pub fn agent(store: &Store, authorization: Option<&str>) -> (r: Result<AuthenticatedCredential, Failure>)
    ensures
        agent_outcome(*store, borrowed_view(authorization), r),
{
    match bearer(authorization) {
        None => Err(Failure::unauthorized()),
        Some(token) => match store.authenticate_credential(token.as_str()) {
            Some(credential) => {
                proof {
                    let hash = credentials::token_digest(token@);
                    lemma_first_match(store.credentials@, hash);
                    let i = choose|i: int| credentials::is_first_match(store.credentials@, hash, i);
                    assert(presents(store.credentials@, borrowed_view(authorization), i));
                }
                Ok(credential)
            },
            None => {
                assert forall|i: int| !#[trigger] presents(store.credentials@, borrowed_view(authorization), i) by {
                    if presents(store.credentials@, borrowed_view(authorization), i) {
                        assert(credentials::recognises(
                            store.credentials@[i],
                            credentials::token_digest(token@),
                        ));
                    }
                }
                Err(Failure::unauthorized())
            },
        },
    }
}

/// Where some credential recognises a fingerprint, there is a first one.
proof fn lemma_first_match(rows: Seq<CredentialRow>, hash: Seq<char>)
    requires
        exists|k: int| 0 <= k < rows.len() && credentials::recognises(#[trigger] rows[k], hash),
    ensures
        exists|i: int| credentials::is_first_match(rows, hash, i),
    decreases rows.len(),
{
    let k = choose|k: int| 0 <= k < rows.len() && credentials::recognises(#[trigger] rows[k], hash);
    if exists|m: int| 0 <= m < k && credentials::recognises(#[trigger] rows[m], hash) {
        let m = choose|m: int| 0 <= m < k && credentials::recognises(#[trigger] rows[m], hash);
        let shorter = rows.take(k);
        assert(shorter[m] == rows[m]);
        lemma_first_match(shorter, hash);
        let i = choose|i: int| credentials::is_first_match(shorter, hash, i);
        assert(credentials::is_first_match(rows, hash, i)) by {
            assert(rows[i] == shorter[i]);
            assert forall|x: int| 0 <= x < i implies !credentials::recognises(#[trigger] rows[x], hash) by {
                assert(shorter[x] == rows[x]);
            }
        }
    } else {
        assert(credentials::is_first_match(rows, hash, k));
    }
}

/// True when a node owns the run of a known attempt.
pub open spec fn owns_attempt(store: Store, node: Seq<char>, run_id: Seq<char>, attempt_no: u32) -> bool {
    &&& tables::attempt_index(store.attempts@, run_id, attempt_no) is Some
    &&& tables::run_index(store.runs@, run_id) is Some
    &&& store.runs@[tables::run_index(store.runs@, run_id)->0].record.owner_node@ == node
}

/// Whose attempt it is.
pub open spec fn attempt_auth_outcome(
    store: Store,
    node: Seq<char>,
    run_id: Seq<char>,
    attempt_no: u32,
    r: Result<(), Failure>,
) -> bool {
    &&& r is Ok <==> owns_attempt(store, node, run_id, attempt_no)
    &&& r is Err ==> r->Err_0@ == failure(404, "attempt_not_found"@, "not found"@)
}

/// Lets an agent speak of the attempts of its own node only.
pub fn attempt_auth(store: &Store, node: &str, run_id: &str, attempt_no: u32) -> (r: Result<(), Failure>)
    ensures
        attempt_auth_outcome(*store, node@, run_id@, attempt_no, r),
{
    if store.attempt_belongs_to_node(run_id, attempt_no, node) {
        Ok(())
    } else {
        Err(Failure::not_found("attempt_not_found"))
    }
}

/// The offset that a header gives.
pub open spec fn offset_outcome(value: Option<Seq<char>>, r: Result<u64, Failure>) -> bool {
    match value {
        Some(written) => match text::unsigned_number(written) {
            Some(number) => r == Ok::<u64, Failure>(number),
            None => r is Err && r->Err_0@ == failure(400, "invalid_log_offset"@, "invalid offset"@),
        },
        None => r is Err && r->Err_0@ == failure(400, "invalid_log_offset"@, "invalid offset"@),
    }
}

/// Reads the offset of a log chunk from its header.
pub fn header_u64(value: Option<&str>) -> (r: Result<u64, Failure>)
    ensures
        offset_outcome(borrowed_view(value), r),
{
    match value {
        Some(written) => match text::parse_unsigned(written) {
            Some(number) => Ok(number),
            None => Err(Failure::bad("invalid_log_offset", "invalid offset")),
        },
        None => Err(Failure::bad("invalid_log_offset", "invalid offset")),
    }
}

/// The operator is who bears the operator's token, and nobody else: what is sent is the word `Bearer`, a
/// blank and the token.
pub proof fn law_operators_bear_the_token(authorization: Option<Seq<char>>, token: Seq<char>, r: Result<(), Failure>)
    requires
        operator_outcome(authorization, token, r),
    ensures
        r is Ok <==> authorization == Some("Bearer "@ + token),
        r is Err ==> r->Err_0@.status == 401,
{
    let scheme = "Bearer "@;
    assert((scheme + token).take(scheme.len() as int) =~= scheme);
    assert((scheme + token).skip(scheme.len() as int) =~= token);
    if authorization is Some && bearer_token(authorization) == Some(token) {
        assert(authorization->0 =~= scheme + token);
    }
}

/// An agent is who bears a token whose fingerprint is that of a credential that was not revoked; it
/// comes for the node of such a credential.
pub proof fn law_agents_come_for_the_node_of_their_credential(
    store: Store,
    token: Seq<char>,
    r: Result<AuthenticatedCredential, Failure>,
    other: Option<Seq<char>>,
    other_r: Result<AuthenticatedCredential, Failure>,
)
    requires
        agent_outcome(store, Some("Bearer "@ + token), r),
        other is None || other->0.len() < "Bearer "@.len() || other->0.take("Bearer "@.len() as int) != "Bearer "@,
        agent_outcome(store, other, other_r),
    ensures
        r is Ok <==> exists|i: int|
            0 <= i < store.credentials@.len() && (#[trigger] store.credentials@[i]).token_hash@
                == crate::domain::schedule::fingerprint(vstd::utf8::encode_utf8(token))
                && store.credentials@[i].record.revoked_at_ms is None,
        r is Ok ==> exists|i: int|
            0 <= i < store.credentials@.len() && (#[trigger] store.credentials@[i]).token_hash@
                == crate::domain::schedule::fingerprint(vstd::utf8::encode_utf8(token))
                && store.credentials@[i].record.revoked_at_ms is None && r->Ok_0.node == store.credentials@[i].record.node
                && r->Ok_0.credential_id == store.credentials@[i].record.id,
        r is Err ==> r->Err_0@.status == 401,
        other_r is Err,
        other_r->Err_0@.status == 401,
{
    let scheme = "Bearer "@;
    assert((scheme + token).take(scheme.len() as int) =~= scheme);
    assert((scheme + token).skip(scheme.len() as int) =~= token);
    assert(bearer_token(Some(scheme + token)) == Some(token));
    assert(bearer_token(other) is None);
    let rows = store.credentials@;
    let hash = credentials::token_digest(token);
    if exists|i: int| 0 <= i < rows.len() && credentials::recognises(#[trigger] rows[i], hash) {
        let i = choose|i: int| 0 <= i < rows.len() && credentials::recognises(#[trigger] rows[i], hash);
        let first = credentials::lemma_first_match(rows, hash, i);
        assert(presents(rows, Some(scheme + token), first));
    }
    if r is Ok {
        let i = choose|i: int|
            #[trigger] presents(rows, Some(scheme + token), i) && r->Ok_0.node == rows[i].record.node
                && r->Ok_0.credential_id == rows[i].record.id;
        assert(credentials::recognises(rows[i], hash));
    }
}

/// An attempt is open to the node that its run belongs to and to no other.
pub proof fn law_attempts_are_open_to_their_node(
    store: Store,
    node: Seq<char>,
    run_id: Seq<char>,
    attempt_no: u32,
    r: Result<(), Failure>,
)
    requires
        store.wf(),
        attempt_auth_outcome(store, node, run_id, attempt_no, r),
    ensures
        r is Ok <==> (exists|a: int|
            0 <= a < store.attempts@.len() && (#[trigger] store.attempts@[a]).record.run_id@ == run_id
                && store.attempts@[a].record.attempt_no == attempt_no) && (exists|j: int|
            0 <= j < store.runs@.len() && (#[trigger] store.runs@[j]).record.id@ == run_id
                && store.runs@[j].record.owner_node@ == node),
        r is Err ==> r->Err_0@.status == 404,
{
    tables::lemma_attempt_index(store.attempts@, run_id, attempt_no);
    tables::lemma_run_index(store.runs@, run_id);
    assert forall|j: int|
        0 <= j < store.runs@.len() && (#[trigger] store.runs@[j]).record.id@ == run_id implies tables::run_index(
        store.runs@,
        run_id,
    ) == Some(j) by {
        crate::store::lookup::lemma_own_run(store.runs@, j);
    }
}

} // verus!
