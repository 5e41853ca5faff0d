//! What the auth policy promises: who gets in, with what, and for how long.

use super::client;
use super::codes;
use super::grants;
use super::invites;
use super::principal::{AccessView, Principal, PrincipalView, Role};
use super::rows;
use super::rows::{AccessRequestState, InviteMode, OAuthClientRow, TokenKind, UserRow};
use super::service;
use super::service::{IssuedAuthCode, IssuedInvite, IssuedToken, PollOutcome, RedeemOutcome};
use super::state_laws;
use super::store::AuthState;
use super::token;
use crate::calendar;
use crate::clock::Moment;
use crate::error::Error;
use crate::text;
use crate::types::StoreVisibility;
use crate::urls;
use vstd::prelude::*;

verus! {

// ---------------------------------------------------------------------------
// Who may read
// ---------------------------------------------------------------------------
/// An admin may read every store. A member may read no private store, and of the shared ones
/// those that it has access to.
pub proof fn reading_goes_by_role_and_access(
    p: PrincipalView,
    store: Seq<char>,
    visibility: StoreVisibility,
)
    ensures
        p.role == Role::Admin ==> p.may_read(store, visibility),
        p.role == Role::Member && visibility == StoreVisibility::Private ==> !p.may_read(
            store,
            visibility,
        ),
        p.role == Role::Member && visibility == StoreVisibility::Shared ==> match p.access {
            AccessView::All => p.may_read(store, visibility),
            AccessView::Granted(names) => p.may_read(store, visibility) == names.contains(store),
        },
{
}

// ---------------------------------------------------------------------------
// Who gets in
// ---------------------------------------------------------------------------
/// Whether an instant, if there is one, lies before the given one.
pub open spec fn is_over(expires_at: Option<Seq<char>>, now: Seq<char>) -> bool {
    expires_at matches Some(e) && text::text_lt(e, now)
}

/// Whether a principal is the user: by id, name and role, with access to everything for an
/// admin, and for a member to exactly what was granted to the user.
pub open spec fn is_principal_of(p: PrincipalView, u: rows::UserView, st: AuthState) -> bool {
    &&& p.user_id == u.id
    &&& p.name == u.name
    &&& p.role == u.role
    &&& u.role == Role::Admin ==> p.access == AccessView::All
    &&& u.role == Role::Member ==> (p.access matches AccessView::Granted(names) && forall|
        store: Seq<char>,
    |
        #[trigger] names.contains(store) <==> is_granted(st, store, u.id))
}

/// Whether a store is granted to a user.
pub open spec fn is_granted(st: AuthState, store: Seq<char>, user: Seq<char>) -> bool {
    exists|i: int|
        0 <= i < st.grants.len() && (#[trigger] st.grants[i]).store_name == store
            && st.grants[i].user_id == user
}

proof fn lemma_principal(st: AuthState, u: rows::UserView)
    ensures
        is_principal_of(service::principal_of(st, u), u, st),
{
    if u.role == Role::Member {
        let p = service::principal_of(st, u);
        let names = p.access->Granted_0;
        assert forall|store: Seq<char>| #[trigger] names.contains(store) <==> is_granted(
            st,
            store,
            u.id,
        ) by {
            grants::grants_decide_what_members_read(st, u, store);
            assert(p.may_read(store, StoreVisibility::Shared) == names.contains(store));
            if is_granted(st, store, u.id) {
                let i = choose|i: int|
                    0 <= i < st.grants.len() && (#[trigger] st.grants[i]).store_name == store
                        && st.grants[i].user_id == u.id;
                assert(st.grants[i].user_id == u.id && st.grants[i].store_name == store);
            }
        }
    }
}

/// A secret lets in the user whose token it is, as long as the token is there, is not revoked,
/// is not over and its user is there; and nobody otherwise. The use of an API key is noted at
/// the key, and of other tokens nowhere.
pub proof fn secrets_let_their_user_in(
    st: AuthState,
    ready: bool,
    hash: Seq<char>,
    at: Moment,
    r: Result<Principal, Error>,
    after: AuthState,
)
    requires
        service::authenticated(st, ready, hash, at, r, after),
    ensures
        r matches Ok(p) ==> (st.token_with(hash) matches Some(t) && {
            &&& t.revoked_at is None
            &&& !is_over(t.expires_at, at.text())
            &&& st.user(t.user_id) matches Some(u) && is_principal_of(p@, u, st)
            &&& t.kind == TokenKind::ApiKey ==> after == st.using_token(t.id, at.stamp@)
            &&& t.kind != TokenKind::ApiKey ==> after == st
        }),
        st.token_with(hash) is None ==> r is Err && after == st,
        st.token_with(hash) matches Some(t) ==> (t.revoked_at is Some || is_over(
            t.expires_at,
            at.text(),
        ) || st.user(t.user_id) is None ==> r is Err && after == st),
        ready ==> (st.token_with(hash) matches Some(t) ==> (t.revoked_at is None && !is_over(
            t.expires_at,
            at.text(),
        ) && st.user(t.user_id) is Some ==> r is Ok)),
        ready && r is Err ==> r->Err_0@ is Unauthorized,
        after.users == st.users && after.grants == st.grants && after.codes == st.codes,
{
    if let Some(t) = st.token_with(hash) {
        if let Some(u) = st.user(t.user_id) {
            lemma_principal(st, u);
        }
    }
}

/// A user who is created has the name and the role that were asked for. Names are unique.
pub proof fn users_are_created_under_new_names(
    st: AuthState,
    ready: bool,
    name: Seq<char>,
    role: Role,
    stamp: Seq<char>,
    r: Result<UserRow, Error>,
    after: AuthState,
)
    requires
        service::user_created(st, ready, name, role, stamp, r, after),
    ensures
        r matches Ok(u) ==> {
            &&& u@.name == name && u@.role == role && u@.created_at == stamp && u@.id.len() == 26
            &&& after.users == st.users.push(u@)
            &&& after.tokens == st.tokens && after.grants == st.grants
            &&& forall|j: int| 0 <= j < st.users.len() ==> (#[trigger] st.users[j]).name != name
        },
        r is Err ==> after == st,
        ready && (forall|j: int| 0 <= j < st.users.len() ==> (#[trigger] st.users[j]).name != name)
            ==> r is Ok,
{
    state_laws::users_are_found(st, Seq::empty(), name);
    if let Some(u) = st.user_named(name) {
        let k = choose|k: int| 0 <= k < st.users.len() && st.users[k] == u;
        assert(st.users[k].name == name);
    }
}

// ---------------------------------------------------------------------------
// Sessions
// ---------------------------------------------------------------------------
/// Whether a token was made for a user now: of the kind, over at the given time, and neither
/// used nor revoked. Its secret is not kept, only the secret's digest.
pub open spec fn is_fresh(
    t: IssuedToken,
    user: Seq<char>,
    kind: TokenKind,
    expires_at: Option<Seq<char>>,
    stamp: Seq<char>,
) -> bool {
    &&& t.row@.user_id == user
    &&& t.row@.kind == kind
    &&& t.row@.expires_at == expires_at
    &&& t.row@.revoked_at is None
    &&& t.row@.last_used_at is None
    &&& t.row@.created_at == stamp
    &&& t.row@.secret_hash == crate::ids::content_hash_of(t.secret@)
    &&& t.row@.id.len() == 26
}

/// A token is issued as asked for: to the user, of the kind, and over once its lifetime has
/// passed, if it has one. Only a refresh token begins a family. It is the last of the tokens, and
/// nothing else changes.
pub proof fn tokens_are_issued_as_asked_for(
    st: AuthState,
    ready: bool,
    user: Seq<char>,
    kind: TokenKind,
    lifetime: Option<i64>,
    at: Moment,
    r: Result<IssuedToken, Error>,
    after: AuthState,
)
    requires
        service::token_issued(st, ready, user, kind, lifetime, at, r, after),
        0 <= at.secs < 253402300800,
        lifetime matches Some(n) ==> 0 <= n < 253402300800,
    ensures
        r matches Ok(t) ==> {
            &&& lifetime matches Some(n) ==> is_fresh(
                t,
                user,
                kind,
                Some(calendar::unix_text(at.secs + n)),
                at.stamp@,
            )
            &&& lifetime is None ==> is_fresh(t, user, kind, None, at.stamp@)
            &&& t.row@.family_id is Some <==> kind == TokenKind::Refresh
            &&& t.row@.rotated_from is None
            &&& after == (AuthState { tokens: st.tokens.push(t.row@), ..st })
        },
        r is Err ==> after == st,
        ready ==> r is Ok,
{
}

/// A refresh token is exchanged for two tokens of its user: an access token of one hour, and a
/// refresh token of thirty days that continues its family. It is revoked itself.
pub proof fn rotation_continues_the_session(
    st: AuthState,
    ready: bool,
    hash: Seq<char>,
    at: Moment,
    r: Result<(IssuedToken, IssuedToken), Error>,
    after: AuthState,
)
    requires
        service::rotated(st, ready, hash, at, r, after),
        0 <= at.secs < 253402300800,
    ensures
        r matches Ok((access, refresh)) ==> (st.token_with(hash) matches Some(t) && {
            &&& t.kind == TokenKind::Refresh
            &&& t.revoked_at is None
            &&& !is_over(t.expires_at, at.text())
            &&& is_fresh(
                access,
                t.user_id,
                TokenKind::Access,
                Some(calendar::unix_text(at.secs + 60 * 60)),
                at.stamp@,
            )
            &&& is_fresh(
                refresh,
                t.user_id,
                TokenKind::Refresh,
                Some(calendar::unix_text(at.secs + 30 * 24 * 60 * 60)),
                at.stamp@,
            )
            &&& refresh.row@.rotated_from == Some(t.id)
            &&& t.family_id is Some ==> refresh.row@.family_id == t.family_id
            &&& refresh.row@.family_id is Some
            &&& access.row@.family_id is None
            &&& after.tokens == st.revoking_token(t.id, at.stamp@).tokens.push(refresh.row@).push(
                access.row@,
            )
            &&& after.users == st.users && after.grants == st.grants
        }),
{
    if let Ok((access, refresh)) = &r {
        assert(after.tokens =~= st.revoking_token(
            st.token_with(hash)->0.id,
            at.stamp@,
        ).tokens.push(refresh.row@).push(access.row@));
    }
}

/// No other token is exchanged: none of another kind, none that is over, and none that was
/// exchanged or revoked before. The latter ends the session: nothing of its family is left live.
pub proof fn other_tokens_are_not_rotated(
    st: AuthState,
    ready: bool,
    hash: Seq<char>,
    at: Moment,
    r: Result<(IssuedToken, IssuedToken), Error>,
    after: AuthState,
)
    requires
        service::rotated(st, ready, hash, at, r, after),
    ensures
        st.token_with(hash) is None ==> r is Err && after == st,
        st.token_with(hash) matches Some(t) ==> {
            &&& t.kind != TokenKind::Refresh ==> r is Err && after == st
            &&& t.revoked_at is None && is_over(t.expires_at, at.text()) ==> r is Err && after
                == st
            &&& t.revoked_at is Some ==> r is Err
            &&& ready && t.kind == TokenKind::Refresh && t.revoked_at is Some ==> (
            t.family_id matches Some(f) ==> forall|i: int|
                0 <= i < after.tokens.len() && (#[trigger] after.tokens[i]).family_id == Some(f)
                    ==> after.tokens[i].revoked_at is Some)
            &&& ready && t.kind == TokenKind::Refresh && t.revoked_at is None && !is_over(
                t.expires_at,
                at.text(),
            ) && st.token(t.id) == Some(t) ==> r is Ok
        },
        ready && r is Err ==> r->Err_0@ is Unauthorized,
{
}

/// Revoking by a secret revokes the token that it belongs to, and with a refresh token its
/// whole family. An unknown secret revokes nothing.
pub proof fn revoking_ends_the_session(
    st: AuthState,
    ready: bool,
    hash: Seq<char>,
    stamp: Seq<char>,
    r: Result<bool, Error>,
    after: AuthState,
)
    requires
        service::secret_revoked(st, ready, hash, stamp, r, after),
    ensures
        st.token_with(hash) is None ==> after == st && (r matches Ok(b) ==> !b),
        r is Ok ==> (st.token_with(hash) matches Some(t) ==> {
            &&& t.kind == TokenKind::Refresh ==> (t.family_id matches Some(f) ==> forall|i: int|
                0 <= i < after.tokens.len() && (#[trigger] after.tokens[i]).family_id == Some(f)
                    ==> after.tokens[i].revoked_at is Some)
            &&& ready && t.kind != TokenKind::Refresh && t.revoked_at is None && st.token(t.id)
                == Some(t) ==> r->Ok_0 && after == st.revoking_token(t.id, stamp)
        }),
        r is Err ==> after == st,
        after.users == st.users && after.grants == st.grants && after.codes == st.codes,
{
}

// ---------------------------------------------------------------------------
// Codes
// ---------------------------------------------------------------------------
/// A code is good for ten minutes, for the client, the redirect and the challenge that it was
/// made for, and for its user.
pub proof fn codes_are_bound_to_what_they_were_made_for(
    st: AuthState,
    ready: bool,
    client: Seq<char>,
    user: Seq<char>,
    redirect: Seq<char>,
    challenge: Seq<char>,
    at: Moment,
    r: Result<IssuedAuthCode, Error>,
    after: AuthState,
)
    requires
        codes::code_made(st, ready, client, user, redirect, challenge, at, r, after),
        0 <= at.secs < 253402300800,
    ensures
        r matches Ok(c) ==> {
            &&& c.row@.id.len() == 26
            &&& c.row@.client_id == client
            &&& c.row@.user_id == user
            &&& c.row@.code_challenge_method == "S256"@
            &&& c.row@.redirect_uri == redirect
            &&& c.row@.code_challenge == challenge
            &&& c.row@.expires_at == calendar::unix_text(at.secs + 10 * 60)
            &&& c.row@.consumed_at is None
            &&& c.row@.created_at == at.stamp@
            &&& c.row@.code_hash == crate::ids::content_hash_of(c.secret@)
            &&& after.codes == st.codes.push(c.row@)
            &&& after.tokens == st.tokens && after.users == st.users
        },
        r is Err ==> after == st,
        ready ==> r is Ok,
{
}

/// A code is redeemed by whoever presents it with its client, its redirect and the verifier
/// behind its challenge, before it is over and once; the user is the one that it was made for.
/// It is consumed by that, and otherwise nothing changes.
pub proof fn codes_are_redeemed_by_their_client(
    st: AuthState,
    ready: bool,
    claim: codes::CodeClaim,
    now: Seq<char>,
    stamp: Seq<char>,
    r: Result<UserRow, Error>,
    after: AuthState,
)
    requires
        codes::code_redeemed(st, ready, claim, now, stamp, r, after),
    ensures
        r matches Ok(u) ==> (st.code_with(claim.hash) matches Some(c) && {
            &&& c.consumed_at is None
            &&& !text::text_lt(c.expires_at, now)
            &&& c.client_id == claim.client
            &&& c.redirect_uri == claim.redirect
            &&& c.code_challenge == token::pkce_challenge(claim.verifier)
            &&& st.user(c.user_id) == Some(u@)
            &&& after == st.consuming_code(c.id, stamp)
        }),
        st.code_with(claim.hash) is None ==> r is Err && after == st,
        st.code_with(claim.hash) matches Some(c) ==> (c.consumed_at is Some || text::text_lt(
            c.expires_at,
            now,
        ) || c.client_id != claim.client || c.redirect_uri != claim.redirect || c.code_challenge
            != token::pkce_challenge(claim.verifier) ==> r is Err && after == st),
        ready ==> (st.code_with(claim.hash) matches Some(c) ==> (c.consumed_at is None
            && !text::text_lt(c.expires_at, now) && c.client_id == claim.client && c.redirect_uri
            == claim.redirect && c.code_challenge == token::pkce_challenge(claim.verifier)
            && st.code(c.id) == Some(c) && st.user(c.user_id) is Some ==> r is Ok)),
        ready && r is Err ==> r->Err_0@ is Unauthorized,
        after.tokens == st.tokens && after.users == st.users && after.grants == st.grants,
{
}

// ---------------------------------------------------------------------------
// Grants
// ---------------------------------------------------------------------------
/// A private store is never granted. Granting a shared one lets its user read it, as a member,
/// and takes nothing from anyone.
#[verifier::rlimit(30)]
pub proof fn only_shared_stores_are_granted(
    st: AuthState,
    ready: bool,
    visibility: StoreVisibility,
    g: rows::GrantView,
    r: Result<(), Error>,
    after: AuthState,
)
    requires
        grants::store_granted(st, ready, visibility, g, r, after),
    ensures
        visibility == StoreVisibility::Private ==> r is Err && after == st && r->Err_0@
            is Forbidden,
        r is Ok ==> after.grants.contains(g) && is_granted(after, g.store_name, g.user_id),
        forall|store: Seq<char>, user: Seq<char>| #[trigger]
            is_granted(st, store, user) ==> is_granted(after, store, user),
        forall|store: Seq<char>, user: Seq<char>| #[trigger]
            is_granted(after, store, user) ==> is_granted(st, store, user) || (store
                == g.store_name && user == g.user_id),
        ready && visibility == StoreVisibility::Shared ==> r is Ok,
        after.users == st.users && after.tokens == st.tokens,
{
    if r is Ok {
        state_laws::granting_adds_that_grant(st, g, g);
        let k = choose|k: int| 0 <= k < after.grants.len() && after.grants[k] == g;
        assert(after.grants[k].store_name == g.store_name);
        assert(is_granted(after, g.store_name, g.user_id));
        assert forall|store: Seq<char>, user: Seq<char>| #[trigger]
            is_granted(st, store, user) implies is_granted(after, store, user) by {
            let i = choose|i: int|
                0 <= i < st.grants.len() && (#[trigger] st.grants[i]).store_name == store
                    && st.grants[i].user_id == user;
            let x = st.grants[i];
            state_laws::granting_adds_that_grant(st, g, x);
            if !(x.store_name == g.store_name && x.user_id == g.user_id) {
                assert(st.grants.contains(x));
                let m = choose|m: int| 0 <= m < after.grants.len() && after.grants[m] == x;
                assert(after.grants[m].store_name == store);
            }
        }
        assert forall|store: Seq<char>, user: Seq<char>| #[trigger]
            is_granted(after, store, user) implies is_granted(st, store, user) || (store
            == g.store_name && user == g.user_id) by {
            let i = choose|i: int|
                0 <= i < after.grants.len() && (#[trigger] after.grants[i]).store_name == store
                    && after.grants[i].user_id == user;
            let x = after.grants[i];
            assert(after.grants.contains(x));
            state_laws::granting_adds_that_grant(st, g, x);
            if x != g {
                let m = choose|m: int| 0 <= m < st.grants.len() && st.grants[m] == x;
                assert(st.grants[m].store_name == store);
            }
        }
    }
}

// ---------------------------------------------------------------------------
// Invites
// ---------------------------------------------------------------------------
/// An invite is made as asked for, with no use taken. It must allow a use, and every store of
/// it must be shared.
pub proof fn invites_are_for_shared_stores(
    st: AuthState,
    ready: bool,
    mode: InviteMode,
    stores: Seq<(String, StoreVisibility)>,
    max_uses: u32,
    expires_at: Option<Seq<char>>,
    by: Seq<char>,
    stamp: Seq<char>,
    r: Result<IssuedInvite, Error>,
    after: AuthState,
)
    requires
        invites::invite_made(st, ready, mode, stores, max_uses, expires_at, by, stamp, r, after),
    ensures
        r matches Ok(v) ==> {
            &&& v.row@.id.len() == 26
            &&& v.row@.mode == mode
            &&& v.row@.max_uses == max_uses
            &&& v.row@.uses == 0
            &&& v.row@.expires_at == expires_at
            &&& v.row@.revoked_at is None
            &&& v.row@.created_by == by
            &&& v.row@.created_at == stamp
            &&& v.row@.token_hash == crate::ids::content_hash_of(v.secret@)
            &&& v.row@.store_grants.len() == stores.len()
            &&& forall|i: int|
                0 <= i < stores.len() ==> (#[trigger] v.row@.store_grants[i]) == stores[i].0@
            &&& after.invites == st.invites.push(v.row@)
        },
        max_uses == 0 ==> r is Err && r->Err_0@ is InvalidRequest,
        (exists|i: int|
            0 <= i < stores.len() && (#[trigger] stores[i]).1 == StoreVisibility::Private)
            ==> r is Err && (max_uses > 0 ==> r->Err_0@ is Forbidden),
        r is Err ==> after == st,
        ready && max_uses > 0 && (forall|i: int|
            0 <= i < stores.len() ==> (#[trigger] stores[i]).1 == StoreVisibility::Shared)
            ==> r is Ok,
{
}

/// What is granted by an invite's stores, one after the other.
#[verifier::rlimit(30)]
proof fn lemma_granting_first(
    st: AuthState,
    names: Seq<Seq<char>>,
    n: int,
    user: Seq<char>,
    by: Seq<char>,
    stamp: Seq<char>,
    store: Seq<char>,
    who: Seq<char>,
)
    requires
        0 <= n <= names.len(),
    ensures
        ({
            let after = invites::granting_first(st, names, n, user, by, stamp);
            &&& is_granted(after, store, who) <==> is_granted(st, store, who) || (who == user
                && names.take(n).contains(store))
            &&& after.users == st.users && after.tokens == st.tokens && after.invites
                == st.invites && after.requests == st.requests && after.codes == st.codes
                && after.clients == st.clients
        }),
    decreases n,
{
    if n > 0 {
        lemma_granting_first(st, names, n - 1, user, by, stamp, store, who);
        let before = invites::granting_first(st, names, n - 1, user, by, stamp);
        let g = grants::grant_of(names[n - 1], user, by, stamp);
        let after = before.granting(g);
        assert(names.take(n) =~= names.take(n - 1).push(names[n - 1]));
        assert(names.take(n).contains(store) <==> names.take(n - 1).contains(store) || store
            == names[n - 1]) by {
            let (s, t) = (names.take(n - 1), names.take(n));
            if s.contains(store) {
                let i = choose|i: int| 0 <= i < s.len() && s[i] == store;
                assert(t[i] == store);
            }
            if t.contains(store) && store != names[n - 1] {
                let i = choose|i: int| 0 <= i < t.len() && t[i] == store;
                assert(s[i] == store);
            }
            assert(t[n - 1] == names[n - 1]);
        }
        if is_granted(before, store, who) {
            let i = choose|i: int|
                0 <= i < before.grants.len() && (#[trigger] before.grants[i]).store_name == store
                    && before.grants[i].user_id == who;
            let x = before.grants[i];
            assert(before.grants.contains(x));
            state_laws::granting_adds_that_grant(before, g, x);
            state_laws::granting_adds_that_grant(before, g, g);
            let y = if x.store_name == g.store_name && x.user_id == g.user_id {
                g
            } else {
                x
            };
            let m = choose|m: int| 0 <= m < after.grants.len() && after.grants[m] == y;
            assert(after.grants[m].store_name == store && after.grants[m].user_id == who);
        }
        if store == names[n - 1] && who == user {
            state_laws::granting_adds_that_grant(before, g, g);
            let m = choose|m: int| 0 <= m < after.grants.len() && after.grants[m] == g;
            assert(after.grants[m].store_name == store && after.grants[m].user_id == who);
        }
        if is_granted(after, store, who) {
            let i = choose|i: int|
                0 <= i < after.grants.len() && (#[trigger] after.grants[i]).store_name == store
                    && after.grants[i].user_id == who;
            let x = after.grants[i];
            assert(after.grants.contains(x));
            state_laws::granting_adds_that_grant(before, g, x);
            if x != g {
                let m = choose|m: int| 0 <= m < before.grants.len() && before.grants[m] == x;
                assert(before.grants[m].store_name == store);
            }
        }
    } else {
        assert(names.take(0) =~= Seq::empty());
    }
}

/// An open invite makes a member of the given name at once: with a grant of each of the
/// invite's stores and of nothing else, and an API key that does not expire. It costs one use.
pub proof fn open_invites_make_a_member(
    st: AuthState,
    ready: bool,
    can_undo: bool,
    hash: Seq<char>,
    name: Seq<char>,
    now: Seq<char>,
    stamp: Seq<char>,
    r: Result<RedeemOutcome, Error>,
    after: AuthState,
    store: Seq<char>,
    who: Seq<char>,
)
    requires
        invites::invite_redeemed(st, ready, can_undo, hash, name, now, stamp, r, after),
    ensures
        r matches Ok(RedeemOutcome::Open { user, grants, credential }) ==> (
        st.invite_with(hash) matches Some(v) && {
            &&& v.mode == InviteMode::Open
            &&& user@.name == name && user@.role == Role::Member
            &&& text::views(grants@) == v.store_grants
            &&& is_fresh(credential, user@.id, TokenKind::ApiKey, None, stamp)
            &&& after.users == st.users.push(user@)
            &&& after.tokens == st.tokens.push(credential.row@)
            &&& after.invites == st.taking_use(v.id).invites
            &&& after.requests == st.requests && after.codes == st.codes
            &&& is_granted(after, store, who) <==> is_granted(st, store, who) || (who == user@.id
                && v.store_grants.contains(store))
        }),
{
    if let Ok(RedeemOutcome::Open { user, grants, credential }) = &r {
        let v = st.invite_with(hash)->0;
        let used = st.taking_use(v.id);
        lemma_granting_first(
            used.adding_user(user@),
            v.store_grants,
            v.store_grants.len() as int,
            user@.id,
            v.created_by,
            stamp,
            store,
            who,
        );
        assert(v.store_grants.take(v.store_grants.len() as int) =~= v.store_grants);
        assert(is_granted(used.adding_user(user@), store, who) == is_granted(st, store, who)) by {
            assert(used.adding_user(user@).grants == st.grants);
        }
        let granted = invites::granting_all(used.adding_user(user@), v, user@.id, stamp);
        assert(after.grants == granted.grants);
        assert(is_granted(after, store, who) == is_granted(granted, store, who));
    }
}

/// A closed invite files a request that waits for a decision, and makes neither a user nor a
/// token nor a grant. It costs one use.
pub proof fn closed_invites_file_a_request(
    st: AuthState,
    ready: bool,
    can_undo: bool,
    hash: Seq<char>,
    name: Seq<char>,
    now: Seq<char>,
    stamp: Seq<char>,
    r: Result<RedeemOutcome, Error>,
    after: AuthState,
)
    requires
        invites::invite_redeemed(st, ready, can_undo, hash, name, now, stamp, r, after),
    ensures
        r matches Ok(RedeemOutcome::Closed { request_id, request_secret }) ==> (
        st.invite_with(hash) matches Some(v) && {
            &&& v.mode == InviteMode::Closed
            &&& after.requests.len() == st.requests.len() + 1
            &&& after.requests.drop_last() == st.requests
            &&& after.requests.last().id == request_id@
            &&& request_id@.len() == 26
            &&& after.requests.last().invite_id == v.id
            &&& after.requests.last().requested_name == name
            &&& after.requests.last().state == AccessRequestState::Pending
            &&& after.requests.last().secret_hash == crate::ids::content_hash_of(request_secret@)
            &&& after.requests.last().resulting_user_id is None
            &&& after.requests.last().collected_at is None
            &&& after.users == st.users && after.tokens == st.tokens && after.grants == st.grants
            &&& after.invites == st.taking_use(v.id).invites
        }),
{
    if let Ok(RedeemOutcome::Closed { request_id, request_secret }) = &r {
        let v = st.invite_with(hash)->0;
        let used = st.taking_use(v.id);
        let q = choose|q: rows::RequestView|
            q.id == request_id@ && invites::is_new_request(q, request_secret@, v.id, name, stamp)
                && after == #[trigger] used.adding_request(q);
        assert(after == used.adding_request(q));
        assert(after.requests.drop_last() =~= st.requests);
    }
}

/// An invite that is unknown, revoked, over or used up is not accepted, and nothing changes; an
/// empty name is not accepted either.
pub proof fn spent_invites_are_refused(
    st: AuthState,
    ready: bool,
    can_undo: bool,
    hash: Seq<char>,
    name: Seq<char>,
    now: Seq<char>,
    stamp: Seq<char>,
    r: Result<RedeemOutcome, Error>,
    after: AuthState,
)
    requires
        invites::invite_redeemed(st, ready, can_undo, hash, name, now, stamp, r, after),
    ensures
        st.invite_with(hash) is None ==> r is Err && after == st,
        st.invite_with(hash) matches Some(v) ==> (v.revoked_at is Some || is_over(
            v.expires_at,
            now,
        ) || v.uses >= v.max_uses ==> r is Err && after == st),
        (forall|i: int| 0 <= i < name.len() ==> text::white_space(#[trigger] name[i])) ==> r is Err
            && after == st && r->Err_0@ is InvalidRequest,
        ready ==> (st.invite_with(hash) matches Some(v) ==> (v.revoked_at is None && !is_over(
            v.expires_at,
            now,
        ) && v.uses < v.max_uses && st.invite(v.id) == Some(v) && st.user_named(name) is None && (
        exists|i: int| 0 <= i < name.len() && !text::white_space(#[trigger] name[i])) ==> r is Ok)),
{
    text::blank_texts_hold_white_space_only(name);
}

// ---------------------------------------------------------------------------
// Requests
// ---------------------------------------------------------------------------
/// An approval makes a member of the requested name, grants the invite's stores and nothing
/// else, and marks the request as approved, with the user. It makes no token.
pub proof fn approvals_make_a_member(
    st: AuthState,
    ready: bool,
    can_undo: bool,
    id: Seq<char>,
    stamp: Seq<char>,
    r: Result<UserRow, Error>,
    after: AuthState,
    store: Seq<char>,
    who: Seq<char>,
)
    requires
        invites::request_approved(st, ready, can_undo, id, stamp, r, after),
    ensures
        r matches Ok(u) ==> (st.request(id) matches Some(q) && {
            &&& q.state == AccessRequestState::Pending
            &&& st.invite(q.invite_id) matches Some(v) && (is_granted(after, store, who)
                <==> is_granted(st, store, who) || (who == u@.id && v.store_grants.contains(store)))
            &&& u@.name == q.requested_name && u@.role == Role::Member
            &&& after.users == st.users.push(u@)
            &&& after.tokens == st.tokens
            &&& after.invites == st.invites
            &&& after.requests == st.deciding_request(
                id,
                AccessRequestState::Approved,
                Some(u@.id),
                stamp,
            ).requests
        }),
        st.request(id) is None ==> r is Err && after == st,
        st.request(id) matches Some(q) ==> (q.state != AccessRequestState::Pending ==> r is Err
            && after == st),
{
    if let Ok(u) = &r {
        let q = st.request(id)->0;
        let v = st.invite(q.invite_id)->0;
        let made = st.adding_user(u@);
        lemma_granting_first(
            made,
            v.store_grants,
            v.store_grants.len() as int,
            u@.id,
            v.created_by,
            stamp,
            store,
            who,
        );
        assert(v.store_grants.take(v.store_grants.len() as int) =~= v.store_grants);
        assert(is_granted(made, store, who) == is_granted(st, store, who)) by {
            assert(made.grants == st.grants);
        }
        let granted = invites::granting_all(made, v, u@.id, stamp);
        assert(after.grants == granted.grants);
        assert(is_granted(after, store, who) == is_granted(granted, store, who));
    }
}

/// A denial marks a pending request as denied, and does nothing else.
pub proof fn denials_only_mark_the_request(
    st: AuthState,
    ready: bool,
    id: Seq<char>,
    stamp: Seq<char>,
    r: Result<(), Error>,
    after: AuthState,
)
    requires
        invites::request_denied(st, ready, id, stamp, r, after),
    ensures
        r is Ok ==> (st.request(id) matches Some(q) && q.state == AccessRequestState::Pending),
        r is Ok ==> after == st.deciding_request(id, AccessRequestState::Denied, None, stamp),
        r is Err ==> after == st,
        after.users == st.users && after.tokens == st.tokens && after.grants == st.grants,
        st.request(id) matches Some(q) ==> (q.state != AccessRequestState::Pending ==> r is Err),
        ready ==> (st.request(id) matches Some(q) ==> (q.state == AccessRequestState::Pending
            ==> r is Ok)),
{
}

/// A poll with the secret of the request tells how it stands, and without it nothing. The first
/// one after an approval gets an API key of the user that the approval made.
pub proof fn polls_tell_how_a_request_stands(
    st: AuthState,
    ready: bool,
    id: Seq<char>,
    secret: Seq<char>,
    stamp: Seq<char>,
    r: Result<PollOutcome, Error>,
    after: AuthState,
)
    requires
        invites::request_polled(st, ready, id, secret, stamp, r, after),
    ensures
        r is Ok ==> (st.request(id) matches Some(q) && q.secret_hash
            == crate::ids::content_hash_of(secret)),
        st.request(id) is None ==> r is Err && after == st,
        st.request(id) matches Some(q) ==> {
            &&& q.secret_hash != crate::ids::content_hash_of(secret) ==> r is Err && after == st
            &&& r matches Ok(PollOutcome::Pending) ==> q.state == AccessRequestState::Pending
            &&& r matches Ok(PollOutcome::Denied) ==> q.state == AccessRequestState::Denied
            &&& r matches Ok(PollOutcome::AlreadyCollected) ==> q.state
                == AccessRequestState::Approved
            &&& r matches Ok(PollOutcome::Approved { credential }) ==> {
                &&& q.state == AccessRequestState::Approved
                &&& q.collected_at is None
                &&& q.resulting_user_id is Some
                &&& after.tokens.len() == st.tokens.len() + 1
                &&& after.tokens.last().user_id == q.resulting_user_id->0
                &&& after.tokens.last().kind == TokenKind::ApiKey
                &&& after.tokens.last().expires_at is None
                &&& after.tokens.last().revoked_at is None
                &&& after.tokens.last().secret_hash == crate::ids::content_hash_of(credential@)
                &&& after.requests == st.collecting_request(id, stamp).requests
            }
            &&& !(r matches Ok(PollOutcome::Approved { .. })) ==> after.tokens == st.tokens
        },
        ready ==> (st.request(id) matches Some(q) ==> (q.secret_hash
            == crate::ids::content_hash_of(secret) ==> {
            &&& q.state == AccessRequestState::Pending ==> (r matches Ok(
                PollOutcome::Pending,
            ))
            &&& q.state == AccessRequestState::Denied ==> (r matches Ok(
                PollOutcome::Denied,
            ))
            &&& q.state == AccessRequestState::Approved && q.collected_at is Some ==> (r matches Ok(
                PollOutcome::AlreadyCollected,
            ))
            &&& q.state == AccessRequestState::Approved && q.collected_at is None
                && q.resulting_user_id is Some ==> (r matches Ok(PollOutcome::Approved { .. }))
        })),
        after.users == st.users && after.grants == st.grants && after.invites == st.invites,
{
}

// ---------------------------------------------------------------------------
// Clients
// ---------------------------------------------------------------------------
/// Whether an address is on this machine: plain HTTP to a loopback host with a port, and any
/// path or none behind it.
pub open spec fn goes_back_to(
    uri: Seq<char>,
    host: Seq<char>,
    port: Seq<char>,
    path: Seq<char>,
) -> bool {
    &&& uri == "http://"@ + host + seq![':'] + port + path
    &&& host == "127.0.0.1"@ || host == "localhost"@
    &&& port.len() > 0
    &&& forall|i: int| 0 <= i < port.len() ==> '0' <= (#[trigger] port[i]) <= '9'
    &&& path.len() == 0 || path[0] == '/'
}

/// A redirect is one back to this machine exactly if it is plain HTTP to `127.0.0.1` or
/// `localhost`, with a port of digits, and any path or none behind it.
pub proof fn loopback_redirects_are_on_this_machine(uri: Seq<char>)
    ensures
        client::is_loopback(uri) <==> exists|host: Seq<char>, port: Seq<char>, path: Seq<char>|
            #[trigger] goes_back_to(uri, host, port, path),
{
    reveal_strlit("http://");
    reveal_strlit("127.0.0.1");
    reveal_strlit("localhost");
    let head = "http://"@;
    if client::is_loopback(uri) {
        let rest = uri.skip(7);
        text::lemma_find_from(rest, '/', 0);
        let slash = text::find_from(rest, '/', 0);
        let a = rest.take(slash);
        text::lemma_find_from(a, ':', 0);
        let c = text::find_from(a, ':', 0);
        let (host, port, path) = (a.take(c), a.skip(c + 1), rest.skip(slash));
        assert(uri =~= head + rest);
        assert(rest =~= a + path);
        assert(a =~= host + seq![':'] + port);
        assert(uri =~= head + host + seq![':'] + port + path);
        assert forall|i: int| 0 <= i < port.len() implies '0' <= (#[trigger] port[i]) <= '9' by {
            assert(text::ascii_digit(port[i]));
        }
        assert(goes_back_to(uri, host, port, path));
    }
    if exists|host: Seq<char>, port: Seq<char>, path: Seq<char>|
        #[trigger] goes_back_to(uri, host, port, path) {
        let (host, port, path) = choose|host: Seq<char>, port: Seq<char>, path: Seq<char>|
            #[trigger] goes_back_to(uri, host, port, path);
        lemma_loopback(uri, host, port, path);
    }
}

proof fn lemma_loopback(uri: Seq<char>, host: Seq<char>, port: Seq<char>, path: Seq<char>)
    requires
        goes_back_to(uri, host, port, path),
    ensures
        client::is_loopback(uri),
{
    reveal_strlit("http://");
    reveal_strlit("127.0.0.1");
    reveal_strlit("localhost");
    let head = "http://"@;
    let a = host + seq![':'] + port;
    let rest = uri.skip(7);
    assert(rest =~= a + path);
    assert(uri.take(7) =~= head);
    assert forall|i: int| 0 <= i < host.len() implies (#[trigger] host[i]) != '/' && host[i]
        != ':' by {
        if host == "localhost"@ {
        } else {
        }
    }
    assert forall|i: int| 0 <= i < a.len() implies (#[trigger] a[i]) != '/' by {
        if i < host.len() {
            assert(a[i] == host[i]);
        } else if i > host.len() {
            assert(a[i] == port[i - host.len() - 1]);
        }
    }
    text::lemma_find_from(rest, '/', 0);
    let slash = text::find_from(rest, '/', 0);
    assert(slash == a.len()) by {
        if slash < a.len() {
            assert(rest[slash] == a[slash]);
        }
        if path.len() > 0 {
            assert(rest[a.len() as int] == path[0]);
        }
    }
    assert(rest.take(slash) =~= a);
    text::lemma_find_from(a, ':', 0);
    let c = text::find_from(a, ':', 0);
    assert(a[host.len() as int] == ':');
    assert(c == host.len()) by {
        if c < host.len() {
            assert(a[c] == host[c]);
        }
    }
    assert(a.take(c) =~= host);
    assert(a.skip(c + 1) =~= port);
    assert forall|i: int| 0 <= i < port.len() implies text::ascii_digit(#[trigger] port[i]) by {}
}

/// A redirect may be registered exactly if it is an `https` address with a host, or one back to
/// this machine.
pub proof fn redirects_are_secure_or_local(uri: Seq<char>, parts: Option<urls::PartsView>)
    ensures
        text::starts_with(uri, "https://"@) ==> (client::may_register(uri, parts) <==> uri.len() > 8
            && (parts matches Some(p) && p.scheme == "https"@ && p.has_host)),
        !text::starts_with(uri, "https://"@) ==> client::may_register(uri, parts)
            == client::is_loopback(uri),
{
}

/// A client is registered with what it asked for, if it asked for a redirect and every one of
/// them may be registered.
pub proof fn clients_are_registered_as_they_ask(
    st: AuthState,
    ready: bool,
    uris: Seq<Seq<char>>,
    name: Option<Seq<char>>,
    stamp: Seq<char>,
    r: Result<OAuthClientRow, Error>,
    after: AuthState,
)
    requires
        grants::client_registered(st, ready, uris, name, stamp, r, after),
    ensures
        r matches Ok(c) ==> {
            &&& c@.redirect_uris == uris
            &&& c@.client_name == name
            &&& c@.created_at == stamp
            &&& after.clients == st.clients.push(c@)
            &&& after.tokens == st.tokens && after.users == st.users
        },
        uris.len() == 0 ==> r is Err && r->Err_0@ is InvalidRequest,
        (exists|i: int|
            0 <= i < uris.len() && !client::may_register(
                #[trigger] uris[i],
                urls::url_parts(uris[i]),
            )) ==> r is Err && r->Err_0@ is InvalidRequest,
        r is Err ==> after == st,
        ready && uris.len() > 0 && (forall|i: int|
            0 <= i < uris.len() ==> client::may_register(
                #[trigger] uris[i],
                urls::url_parts(uris[i]),
            )) ==> r is Ok,
{
}

/// A registration has at most five redirects of at most 2048 characters each.
pub proof fn registrations_are_bounded(uris: Seq<String>)
    ensures
        uris.len() > 5 ==> !client::uris_within_bounds(uris),
        (exists|i: int| 0 <= i < uris.len() && (#[trigger] uris[i])@.len() > 2048)
            ==> !client::uris_within_bounds(uris),
        uris.len() <= 5 && (forall|i: int|
            0 <= i < uris.len() ==> (#[trigger] uris[i])@.len() <= 2048)
            ==> client::uris_within_bounds(uris),
{
}

// ---------------------------------------------------------------------------
// Secrets
// ---------------------------------------------------------------------------
/// A secret is the prefix and the bytes in base64url, and is kept as the digest of the whole.
pub proof fn secrets_have_a_prefix(bytes: Seq<u8>)
    ensures
        text::starts_with(token::secret_of(bytes), "ldb_"@),
        token::secret_of(bytes).skip(4) == token::b64(bytes),
        token::secret_hash(token::secret_of(bytes)) == crate::ids::content_hash_of(
            token::secret_of(bytes),
        ),
{
    reveal_strlit("ldb_");
    assert(token::secret_of(bytes).take(4) =~= "ldb_"@);
    assert(token::secret_of(bytes).skip(4) =~= token::b64(bytes));
}

/// What is minted is a secret of 32 bytes behind the prefix, and its digest.
pub proof fn minted_secrets_have_32_bytes(secret: Seq<char>, hash: Seq<char>)
    requires
        token::is_minted(secret, hash),
    ensures
        hash == crate::ids::content_hash_of(secret),
        text::starts_with(secret, "ldb_"@),
        secret.len() == 4 + 43,
        exists|bytes: Seq<u8>|
            bytes.len() == 32 && secret.skip(4) == #[trigger] token::b64(bytes),
{
    reveal_strlit("ldb_");
    let bytes = choose|bytes: Seq<u8>|
        bytes.len() == 32 && secret == #[trigger] token::secret_of(bytes);
    secrets_have_a_prefix(bytes);
    assert(token::b64(bytes).len() == 43);
    assert(secret == "ldb_"@ + token::b64(bytes));
}

/// Base64url takes six bits for a character: capital letters, small letters, digits, `-` and
/// `_`, in this order, without padding.
pub proof fn base64url_has_its_alphabet(bytes: Seq<u8>, k: int)
    requires
        0 <= k < token::b64(bytes).len(),
    ensures
        ({
            let v = token::sextet(bytes, k);
            let c = token::b64(bytes)[k];
            &&& 0 <= v < 64
            &&& 'A' <= c <= 'Z' <==> v < 26
            &&& 'a' <= c <= 'z' <==> 26 <= v < 52
            &&& '0' <= c <= '9' <==> 52 <= v < 62
            &&& c == '-' <==> v == 62
            &&& c == '_' <==> v == 63
            &&& v < 26 ==> c as u32 - 'A' as u32 == v
            &&& 26 <= v < 52 ==> c as u32 - 'a' as u32 == v - 26
            &&& 52 <= v < 62 ==> c as u32 - '0' as u32 == v - 52
        }),
        6 * token::b64(bytes).len() >= 8 * bytes.len(),
        6 * token::b64(bytes).len() < 8 * bytes.len() + 6,
{
    let n = token::b64_group(bytes, k / 4);
    assert(0 <= n < 16777216);
}

/// The six bits of four characters are the eight bits of three bytes.
pub proof fn base64url_keeps_the_bits(bytes: Seq<u8>, g: int)
    requires
        0 <= g,
        3 * g + 2 < bytes.len(),
    ensures
        262144 * token::sextet(bytes, 4 * g) + 4096 * token::sextet(bytes, 4 * g + 1) + 64
            * token::sextet(bytes, 4 * g + 2) + token::sextet(bytes, 4 * g + 3) == 65536
            * bytes[3 * g] + 256 * bytes[3 * g + 1] + bytes[3 * g + 2],
{
    let n = token::b64_group(bytes, g);
    assert((4 * g) / 4 == g && (4 * g + 1) / 4 == g && (4 * g + 2) / 4 == g && (4 * g + 3) / 4
        == g);
    assert((4 * g) % 4 == 0 && (4 * g + 1) % 4 == 1 && (4 * g + 2) % 4 == 2 && (4 * g + 3) % 4
        == 3);
    assert(262144 * (n / 262144) + 4096 * ((n / 4096) % 64) + 64 * ((n / 64) % 64) + n % 64 == n)
        by (nonlinear_arith)
        requires
            0 <= n < 16777216,
    ;
}

/// The challenge of a verifier is the SHA-256 digest of it, in base64url.
pub proof fn challenges_are_digests(verifier: Seq<char>)
    ensures
        token::pkce_challenge(verifier) == token::b64(
            token::sha256(vstd::utf8::encode_utf8(verifier)),
        ),
{
}

/// A clock's reading is the time since 1970, and a clock before that reads zero.
pub proof fn readings_are_the_time_since_1970(elapsed: Option<u64>)
    ensures
        elapsed is None ==> token::reading_secs(elapsed) == 0,
        elapsed matches Some(s) ==> (s <= i64::MAX ==> token::reading_secs(elapsed) == s),
        elapsed matches Some(s) ==> (s > i64::MAX ==> token::reading_secs(elapsed) == s
            - 0x1_0000_0000_0000_0000),
{
}

/// Times are added up as far as they can be counted.
pub proof fn times_are_added_up(a: i64, b: i64)
    ensures
        i64::MIN <= a + b <= i64::MAX ==> token::clamped_sum(a, b) == a + b,
        a + b > i64::MAX ==> token::clamped_sum(a, b) == i64::MAX,
        a + b < i64::MIN ==> token::clamped_sum(a, b) == i64::MIN,
{
}

} // verus!
