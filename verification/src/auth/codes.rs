//! The auth policy for authorization codes.

use super::rows;
use super::rows::{AuthCodeRow, UserRow};
use super::service;
use super::service::{AuthService, IssuedAuthCode};
use super::store;
use super::store::AuthStore;
use super::tables;
use super::token;
use super::token::AUTH_CODE_TTL_SECS;
use crate::calendar;
use crate::clock::Moment;
use crate::error::Error;
use crate::ids;
use crate::lists;
use crate::text;
use vstd::prelude::*;

verus! {

/// A new code, bound to client, user, redirect and challenge, and the secret that it is kept
/// as the digest of.
pub open spec fn is_issued_code(
    c: IssuedAuthCode,
    client: Seq<char>,
    user: Seq<char>,
    redirect: Seq<char>,
    challenge: Seq<char>,
) -> bool {
    &&& c.row@.id.len() == 26
    &&& c.row@.client_id == client
    &&& c.row@.user_id == user
    &&& token::is_minted(c.secret@, c.row@.code_hash)
    &&& c.row@.code_challenge == challenge
    &&& c.row@.code_challenge_method == "S256"@
    &&& c.row@.redirect_uri == redirect
    &&& c.row@.consumed_at is None
}

/// What is presented with a code.
pub struct CodeClaim {
    pub hash: Seq<char>,
    pub client: Seq<char>,
    pub redirect: Seq<char>,
    pub verifier: Seq<char>,
}

/// Why a code is not accepted, if it is not: it is unknown, used, expired, or was made for
/// another client, redirect or verifier.
pub open spec fn code_refusal(st: store::AuthState, claim: CodeClaim, now: Seq<char>) -> Option<
    Seq<char>,
> {
    match st.code_with(claim.hash) {
        None => Some("invalid or unknown authorization code"@),
        Some(c) => if c.consumed_at is Some {
            Some("authorization code already used"@)
        } else if text::text_lt(c.expires_at, now) {
            Some("authorization code expired"@)
        } else if c.client_id != claim.client {
            Some("client_id does not match the authorization code"@)
        } else if c.redirect_uri != claim.redirect {
            Some("redirect_uri does not match the authorization code"@)
        } else if token::pkce_challenge(claim.verifier) != c.code_challenge {
            Some("PKCE verification failed"@)
        } else {
            None
        },
    }
}

/// Whether the code of the id is there and not consumed.
pub open spec fn is_unused(st: store::AuthState, id: Seq<char>) -> bool {
    st.code(id) matches Some(c) && c.consumed_at is None
}

/// What redeeming a code does, from the store before it to the store after it.
pub open spec fn code_redeemed(
    st: store::AuthState,
    ready: bool,
    claim: CodeClaim,
    now: Seq<char>,
    stamp: Seq<char>,
    r: Result<UserRow, Error>,
    after: store::AuthState,
) -> bool {
    let refusal = code_refusal(st, claim, now);
    let c = st.code_with(claim.hash)->0;
    let consumed = st.consuming_code(c.id, stamp);
    &&& r is Ok ==> refusal is None && is_unused(st, c.id) && after == consumed && st.user(c.user_id)
        == Some(r->Ok_0@)
    &&& refusal is Some ==> r is Err && after == st
    &&& after == st || (refusal is None && is_unused(st, c.id) && after == consumed)
    &&& ready && refusal is Some ==> r->Err_0@ == service::refused(refusal->0)
    &&& ready && refusal is None && !is_unused(st, c.id) ==> r is Err && r->Err_0@
        == service::refused("authorization code already used"@) && after == st
    &&& ready && refusal is None && is_unused(st, c.id) ==> after == consumed && (r is Ok
        <==> st.user(c.user_id) is Some) && (r is Err ==> r->Err_0@ == service::refused(
        "authorization code's user no longer exists"@,
    ))
}

/// What making a code does, from the store before it to the store after it. It is good for ten
/// minutes.
pub open spec fn code_made(
    st: store::AuthState,
    ready: bool,
    client: Seq<char>,
    user: Seq<char>,
    redirect: Seq<char>,
    challenge: Seq<char>,
    at: Moment,
    r: Result<IssuedAuthCode, Error>,
    after: store::AuthState,
) -> bool {
    &&& r matches Ok(c) ==> {
        &&& is_issued_code(c, client, user, redirect, challenge)
        &&& c.row@.expires_at == at.after(600)
        &&& c.row@.created_at == at.stamp@
        &&& after == st.adding_code(c.row@)
    }
    &&& r is Err ==> after == st
    &&& ready ==> r is Ok
}

impl<S: AuthStore> AuthService<S> {
    /// Makes a single-use authorization code of ten minutes.
    pub fn issue_auth_code_at(
        &mut self,
        client_id: &str,
        user_id: &str,
        redirect_uri: &str,
        code_challenge: &str,
        at: &Moment,
    ) -> (r: Result<IssuedAuthCode, Error>)
        ensures
            code_made(
                old(self).state(),
                old(self).ready(),
                client_id@,
                user_id@,
                redirect_uri@,
                code_challenge@,
                *at,
                r,
                final(self).state(),
            ),
            old(self).can_undo() ==> final(self).can_undo(),
            old(self).ready() ==> final(self).ready(),
    {
        let minted = token::mint_secret();
        let row = AuthCodeRow {
            id: ids::new_ulid(),
            client_id: client_id.to_owned(),
            user_id: user_id.to_owned(),
            code_hash: minted.hash,
            code_challenge: code_challenge.to_owned(),
            code_challenge_method: "S256".to_owned(),
            redirect_uri: redirect_uri.to_owned(),
            expires_at: token::rfc3339_after(at.secs, AUTH_CODE_TTL_SECS),
            consumed_at: None,
            created_at: at.stamp.clone(),
        };
        match self.store.create_auth_code(&row) {
            Ok(()) => Ok(IssuedAuthCode { row, secret: minted.secret }),
            Err(e) => Err(e),
        }
    }

    /// Makes a single-use authorization code, now.
    pub fn issue_auth_code(
        &mut self,
        client_id: &str,
        user_id: &str,
        redirect_uri: &str,
        code_challenge: &str,
    ) -> (r: Result<IssuedAuthCode, Error>)
        ensures
            exists|at: Moment|
                at.well_formed() && #[trigger] code_made(
                    old(self).state(),
                    old(self).ready(),
                    client_id@,
                    user_id@,
                    redirect_uri@,
                    code_challenge@,
                    at,
                    r,
                    final(self).state(),
                ),
            old(self).can_undo() ==> final(self).can_undo(),
            old(self).ready() ==> final(self).ready(),
    {
        let at = Moment::now();
        self.issue_auth_code_at(client_id, user_id, redirect_uri, code_challenge, &at)
    }

    /// Redeems an authorization code for the user it was made for. The code is consumed: of
    /// several attempts at most one succeeds.
    pub fn redeem_auth_code_at(
        &mut self,
        code: &str,
        client_id: &str,
        redirect_uri: &str,
        code_verifier: &str,
        at: &Moment,
    ) -> (r: Result<UserRow, Error>)
        ensures
            code_redeemed(
                old(self).state(),
                old(self).ready(),
                CodeClaim {
                    hash: token::secret_hash(code@),
                    client: client_id@,
                    redirect: redirect_uri@,
                    verifier: code_verifier@,
                },
                at.text(),
                at.stamp@,
                r,
                final(self).state(),
            ),
            old(self).can_undo() ==> final(self).can_undo(),
            old(self).ready() ==> final(self).ready(),
    {
        let hash = token::hash_secret(code);
        let row = match self.store.find_auth_code_by_hash(hash.as_str()) {
            Ok(Some(c)) => c,
            Ok(None) => return Err(Error::unauthorized("invalid or unknown authorization code")),
            Err(e) => return Err(e),
        };
        if row.consumed_at.is_some() {
            return Err(Error::unauthorized("authorization code already used"));
        }
        let now = calendar::format_unix(at.secs);
        if token::is_expired_at(row.expires_at.as_str(), now.as_str()) {
            return Err(Error::unauthorized("authorization code expired"));
        }
        if !text::str_eq(row.client_id.as_str(), client_id) {
            return Err(Error::unauthorized("client_id does not match the authorization code"));
        }
        if !text::str_eq(row.redirect_uri.as_str(), redirect_uri) {
            return Err(Error::unauthorized("redirect_uri does not match the authorization code"));
        }
        if !token::verify_pkce_s256(code_verifier, row.code_challenge.as_str()) {
            return Err(Error::unauthorized("PKCE verification failed"));
        }
        match self.store.consume_auth_code(row.id.as_str(), at.stamp.as_str()) {
            Ok(true) => {},
            Ok(false) => return Err(Error::unauthorized("authorization code already used")),
            Err(e) => return Err(e),
        }
        match self.store.get_user(row.user_id.as_str()) {
            Ok(Some(u)) => Ok(u),
            Ok(None) => Err(Error::unauthorized("authorization code's user no longer exists")),
            Err(e) => Err(e),
        }
    }

    /// Redeems an authorization code, now.
    pub fn redeem_auth_code(
        &mut self,
        code: &str,
        client_id: &str,
        redirect_uri: &str,
        code_verifier: &str,
    ) -> (r: Result<UserRow, Error>)
        ensures
            exists|at: Moment|
                at.well_formed() && #[trigger] code_redeemed(
                    old(self).state(),
                    old(self).ready(),
                    CodeClaim {
                        hash: token::secret_hash(code@),
                        client: client_id@,
                        redirect: redirect_uri@,
                        verifier: code_verifier@,
                    },
                    at.text(),
                    at.stamp@,
                    r,
                    final(self).state(),
                ),
            old(self).can_undo() ==> final(self).can_undo(),
            old(self).ready() ==> final(self).ready(),
    {
        let at = Moment::now();
        self.redeem_auth_code_at(code, client_id, redirect_uri, code_verifier, &at)
    }
}

// ---------------------------------------------------------------------------
// Laws
// ---------------------------------------------------------------------------
/// No two codes share an id.
pub open spec fn distinct_codes(st: store::AuthState) -> bool {
    forall|i: int, j: int|
        0 <= i < j < st.codes.len() ==> (#[trigger] st.codes[i]).id != (#[trigger] st.codes[j]).id
}

/// A code is good for one redemption: after it was redeemed, whoever presents it with
/// whatever else, at any time, is refused.
pub proof fn codes_are_single_use(
    st: store::AuthState,
    ready: bool,
    claim: CodeClaim,
    now: Seq<char>,
    stamp: Seq<char>,
    r: Result<UserRow, Error>,
    after: store::AuthState,
    again: CodeClaim,
    later: Seq<char>,
)
    requires
        distinct_codes(st),
        code_redeemed(st, ready, claim, now, stamp, r, after),
        r is Ok,
        again.hash == claim.hash,
    ensures
        code_refusal(after, again, later) == Some("authorization code already used"@),
{
    let byhash = tables::code_hash_is(claim.hash);
    let c = st.code_with(claim.hash)->0;
    let byid = tables::code_id_is(c.id);
    lists::lemma_first_from(st.codes, byhash, 0);
    lists::lemma_first_from(st.codes, byid, 0);
    let i = lists::first_from(st.codes, byhash, 0)->0;
    let k = lists::first_from(st.codes, byid, 0)->0;
    if k < i {
        assert(st.codes[k].id != st.codes[i].id);
    } else if i < k {
        assert(st.codes[i].id != st.codes[k].id);
    }
    lists::lemma_first_from(after.codes, byhash, 0);
    let m = lists::first_from(after.codes, byhash, 0);
    assert(after.codes[i].code_hash == claim.hash);
    assert(byhash(after.codes[i]));
    if let Some(j) = m {
        if j < i {
            assert(after.codes[j] == st.codes[j]);
            assert(!byhash(st.codes[j]));
        }
    }
}

} // verus!
