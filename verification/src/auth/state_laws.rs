//! What the operations on a store's content change, and what they leave alone.

use super::principal::Role;
use super::rows;
use super::rows::AccessRequestState;
use super::store::AuthState;
use super::tables;
use crate::lists;
use vstd::prelude::*;

verus! {

// ---------------------------------------------------------------------------
// Lookups
// ---------------------------------------------------------------------------
proof fn lemma_found<V>(s: Seq<V>, p: spec_fn(V) -> bool) -> (k: int)
    ensures
        match lists::found(s, p) {
            Some(v) => 0 <= k < s.len() && v == s[k] && p(s[k]) && forall|j: int|
                0 <= j < k ==> !p(#[trigger] s[j]),
            None => forall|j: int| 0 <= j < s.len() ==> !p(#[trigger] s[j]),
        },
{
    lists::lemma_first_from(s, p, 0);
    match lists::first_from(s, p, 0) {
        Some(k) => k,
        None => 0,
    }
}

/// A user is found by the id, and by the name, exactly if there is one.
pub proof fn users_are_found(st: AuthState, id: Seq<char>, name: Seq<char>)
    ensures
        st.user(id) matches Some(u) ==> u.id == id && st.users.contains(u),
        st.user(id) is None ==> forall|j: int|
            0 <= j < st.users.len() ==> (#[trigger] st.users[j]).id != id,
        st.user_named(name) matches Some(u) ==> u.name == name && st.users.contains(u),
        st.user_named(name) is None ==> forall|j: int|
            0 <= j < st.users.len() ==> (#[trigger] st.users[j]).name != name,
{
    let p = tables::user_id_is(id);
    let q = tables::user_name_is(name);
    let a = lemma_found(st.users, p);
    let b = lemma_found(st.users, q);
    assert forall|j: int| 0 <= j < st.users.len() && st.user(id) is None implies (
    #[trigger] st.users[j]).id != id by {
        assert(!p(st.users[j]));
    }
    assert forall|j: int| 0 <= j < st.users.len() && st.user_named(name) is None implies (
    #[trigger] st.users[j]).name != name by {
        assert(!q(st.users[j]));
    }
}

/// A token is found by the digest of its secret, and by its id, exactly if there is one.
pub proof fn tokens_are_found(st: AuthState, hash: Seq<char>, id: Seq<char>)
    ensures
        st.token_with(hash) matches Some(t) ==> t.secret_hash == hash && st.tokens.contains(t),
        st.token_with(hash) is None ==> forall|j: int|
            0 <= j < st.tokens.len() ==> (#[trigger] st.tokens[j]).secret_hash != hash,
        st.token(id) matches Some(t) ==> t.id == id && st.tokens.contains(t),
        st.token(id) is None ==> forall|j: int|
            0 <= j < st.tokens.len() ==> (#[trigger] st.tokens[j]).id != id,
{
    let p = tables::token_hash_is(hash);
    let q = tables::token_id_is(id);
    let a = lemma_found(st.tokens, p);
    let b = lemma_found(st.tokens, q);
    assert forall|j: int| 0 <= j < st.tokens.len() && st.token_with(hash) is None implies (
    #[trigger] st.tokens[j]).secret_hash != hash by {
        assert(!p(st.tokens[j]));
    }
    assert forall|j: int| 0 <= j < st.tokens.len() && st.token(id) is None implies (
    #[trigger] st.tokens[j]).id != id by {
        assert(!q(st.tokens[j]));
    }
}

/// A code is found by the digest of its secret, and by its id, exactly if there is one.
pub proof fn codes_are_found(st: AuthState, hash: Seq<char>, id: Seq<char>)
    ensures
        st.code_with(hash) matches Some(c) ==> c.code_hash == hash && st.codes.contains(c),
        st.code_with(hash) is None ==> forall|j: int|
            0 <= j < st.codes.len() ==> (#[trigger] st.codes[j]).code_hash != hash,
        st.code(id) matches Some(c) ==> c.id == id && st.codes.contains(c),
        st.code(id) is None ==> forall|j: int|
            0 <= j < st.codes.len() ==> (#[trigger] st.codes[j]).id != id,
{
    let p = tables::code_hash_is(hash);
    let q = tables::code_id_is(id);
    let a = lemma_found(st.codes, p);
    let b = lemma_found(st.codes, q);
    assert forall|j: int| 0 <= j < st.codes.len() && st.code_with(hash) is None implies (
    #[trigger] st.codes[j]).code_hash != hash by {
        assert(!p(st.codes[j]));
    }
    assert forall|j: int| 0 <= j < st.codes.len() && st.code(id) is None implies (
    #[trigger] st.codes[j]).id != id by {
        assert(!q(st.codes[j]));
    }
}

/// An invite is found by the digest of its secret, and by its id, exactly if there is one.
pub proof fn invites_are_found(st: AuthState, hash: Seq<char>, id: Seq<char>)
    ensures
        st.invite_with(hash) matches Some(v) ==> v.token_hash == hash && st.invites.contains(v),
        st.invite_with(hash) is None ==> forall|j: int|
            0 <= j < st.invites.len() ==> (#[trigger] st.invites[j]).token_hash != hash,
        st.invite(id) matches Some(v) ==> v.id == id && st.invites.contains(v),
        st.invite(id) is None ==> forall|j: int|
            0 <= j < st.invites.len() ==> (#[trigger] st.invites[j]).id != id,
{
    let p = tables::invite_hash_is(hash);
    let q = tables::invite_id_is(id);
    let a = lemma_found(st.invites, p);
    let b = lemma_found(st.invites, q);
    assert forall|j: int| 0 <= j < st.invites.len() && st.invite_with(hash) is None implies (
    #[trigger] st.invites[j]).token_hash != hash by {
        assert(!p(st.invites[j]));
    }
    assert forall|j: int| 0 <= j < st.invites.len() && st.invite(id) is None implies (
    #[trigger] st.invites[j]).id != id by {
        assert(!q(st.invites[j]));
    }
}

/// A client and a request are found by their ids exactly if there are such.
pub proof fn clients_and_requests_are_found(st: AuthState, id: Seq<char>)
    ensures
        st.client(id) matches Some(c) ==> c.id == id && st.clients.contains(c),
        st.client(id) is None ==> forall|j: int|
            0 <= j < st.clients.len() ==> (#[trigger] st.clients[j]).id != id,
        st.request(id) matches Some(q) ==> q.id == id && st.requests.contains(q),
        st.request(id) is None ==> forall|j: int|
            0 <= j < st.requests.len() ==> (#[trigger] st.requests[j]).id != id,
{
    let p = tables::client_id_is(id);
    let q = tables::request_id_is(id);
    let a = lemma_found(st.clients, p);
    let b = lemma_found(st.requests, q);
    assert forall|j: int| 0 <= j < st.clients.len() && st.client(id) is None implies (
    #[trigger] st.clients[j]).id != id by {
        assert(!p(st.clients[j]));
    }
    assert forall|j: int| 0 <= j < st.requests.len() && st.request(id) is None implies (
    #[trigger] st.requests[j]).id != id by {
        assert(!q(st.requests[j]));
    }
}

// ---------------------------------------------------------------------------
// Changes of one row
// ---------------------------------------------------------------------------
/// Whether two lists are the same but for the item at `k`.
pub open spec fn differ_only_at<V>(before: Seq<V>, after: Seq<V>, k: int) -> bool {
    &&& 0 <= k < before.len()
    &&& after.len() == before.len()
    &&& forall|j: int| 0 <= j < before.len() && j != k ==> (#[trigger] after[j]) == before[j]
}

/// Whether nothing but the users changed.
pub open spec fn only_users_change(before: AuthState, after: AuthState) -> bool {
    after == (AuthState { users: after.users, ..before })
}

/// Whether nothing but the tokens changed.
pub open spec fn only_tokens_change(before: AuthState, after: AuthState) -> bool {
    after == (AuthState { tokens: after.tokens, ..before })
}

/// Whether nothing but the codes changed.
pub open spec fn only_codes_change(before: AuthState, after: AuthState) -> bool {
    after == (AuthState { codes: after.codes, ..before })
}

/// Whether nothing but the grants changed.
pub open spec fn only_grants_change(before: AuthState, after: AuthState) -> bool {
    after == (AuthState { grants: after.grants, ..before })
}

/// Whether nothing but the invites changed.
pub open spec fn only_invites_change(before: AuthState, after: AuthState) -> bool {
    after == (AuthState { invites: after.invites, ..before })
}

/// Whether nothing but the requests changed.
pub open spec fn only_requests_change(before: AuthState, after: AuthState) -> bool {
    after == (AuthState { requests: after.requests, ..before })
}

/// Where the first item that satisfies `p` stands, and that updating changes only that one.
proof fn lemma_updated<V>(s: Seq<V>, p: spec_fn(V) -> bool, f: spec_fn(V) -> V) -> (k: int)
    ensures
        match lists::found(s, p) {
            Some(v) => 0 <= k < s.len() && v == s[k] && differ_only_at(
                s,
                lists::updated(s, p, f),
                k,
            ) && lists::updated(s, p, f)[k] == f(v),
            None => lists::updated(s, p, f) == s,
        },
{
    lists::lemma_first_from(s, p, 0);
    match lists::first_from(s, p, 0) {
        Some(k) => k,
        None => 0,
    }
}

/// Revoking a token stamps that token as revoked. Everything else about it, and about anything
/// else, stays. A token that is not there changes nothing.
pub proof fn revoking_marks_that_token(st: AuthState, id: Seq<char>, at: Seq<char>)
    ensures
        only_tokens_change(st, st.revoking_token(id, at)),
        match st.token(id) {
            Some(t) => exists|k: int|
                #[trigger] differ_only_at(st.tokens, st.revoking_token(id, at).tokens, k)
                    && st.tokens[k] == t && st.revoking_token(id, at).tokens[k] == (
                rows::TokenView { revoked_at: Some(at), ..t }),
            None => st.revoking_token(id, at) == st,
        },
{
    let k = lemma_updated(
        st.tokens,
        tables::token_id_is(id),
        super::store::token_revoked(at),
    );
    if st.token(id) is Some {
        assert(differ_only_at(st.tokens, st.revoking_token(id, at).tokens, k));
    }
}

/// The use of a token is noted at that token.
pub proof fn using_marks_that_token(st: AuthState, id: Seq<char>, at: Seq<char>)
    ensures
        only_tokens_change(st, st.using_token(id, at)),
        match st.token(id) {
            Some(t) => exists|k: int|
                #[trigger] differ_only_at(st.tokens, st.using_token(id, at).tokens, k)
                    && st.tokens[k] == t && st.using_token(id, at).tokens[k] == (
                rows::TokenView { last_used_at: Some(at), ..t }),
            None => st.using_token(id, at) == st,
        },
{
    let k = lemma_updated(st.tokens, tables::token_id_is(id), super::store::token_used(at));
    if st.token(id) is Some {
        assert(differ_only_at(st.tokens, st.using_token(id, at).tokens, k));
    }
}

/// Consuming a code stamps that code as consumed.
pub proof fn consuming_marks_that_code(st: AuthState, id: Seq<char>, at: Seq<char>)
    ensures
        only_codes_change(st, st.consuming_code(id, at)),
        match st.code(id) {
            Some(c) => exists|k: int|
                #[trigger] differ_only_at(st.codes, st.consuming_code(id, at).codes, k)
                    && st.codes[k] == c && st.consuming_code(id, at).codes[k] == (rows::CodeView {
                    consumed_at: Some(at),
                    ..c
                }),
            None => st.consuming_code(id, at) == st,
        },
{
    let k = lemma_updated(st.codes, tables::code_id_is(id), super::store::code_consumed(at));
    if st.code(id) is Some {
        assert(differ_only_at(st.codes, st.consuming_code(id, at).codes, k));
    }
}

/// Revoking an invite stamps that invite as revoked.
pub proof fn revoking_marks_that_invite(st: AuthState, id: Seq<char>, at: Seq<char>)
    ensures
        only_invites_change(st, st.revoking_invite(id, at)),
        match st.invite(id) {
            Some(v) => exists|k: int|
                #[trigger] differ_only_at(st.invites, st.revoking_invite(id, at).invites, k)
                    && st.invites[k] == v && st.revoking_invite(id, at).invites[k] == (
                rows::InviteView { revoked_at: Some(at), ..v }),
            None => st.revoking_invite(id, at) == st,
        },
{
    let k = lemma_updated(
        st.invites,
        tables::invite_id_is(id),
        super::store::invite_revoked(at),
    );
    if st.invite(id) is Some {
        assert(differ_only_at(st.invites, st.revoking_invite(id, at).invites, k));
    }
}

/// Taking a use of an invite counts one use more of that invite, and giving it back one less.
pub proof fn uses_are_counted_one_by_one(st: AuthState, id: Seq<char>)
    ensures
        only_invites_change(st, st.taking_use(id)),
        only_invites_change(st, st.returning_use(id)),
        match st.invite(id) {
            Some(v) => exists|k: int|
                #[trigger] differ_only_at(st.invites, st.taking_use(id).invites, k) && st.invites[k]
                    == v && (v.uses < u32::MAX ==> st.taking_use(id).invites[k] == (
                rows::InviteView { uses: (v.uses + 1) as u32, ..v })),
            None => st.taking_use(id) == st,
        },
        match st.invite(id) {
            Some(v) => exists|k: int|
                #[trigger] differ_only_at(st.invites, st.returning_use(id).invites, k)
                    && st.invites[k] == v && st.returning_use(id).invites[k] == (
                rows::InviteView {
                    uses: if v.uses > 0 {
                        (v.uses - 1) as u32
                    } else {
                        0
                    },
                    ..v
                }),
            None => st.returning_use(id) == st,
        },
{
    let k = lemma_updated(st.invites, tables::invite_id_is(id), super::store::use_taken());
    let m = lemma_updated(st.invites, tables::invite_id_is(id), super::store::use_returned());
    if st.invite(id) is Some {
        assert(differ_only_at(st.invites, st.taking_use(id).invites, k));
        assert(differ_only_at(st.invites, st.returning_use(id).invites, m));
    }
}

/// Deciding a request stamps that request with the decision and the user it came to.
pub proof fn deciding_marks_that_request(
    st: AuthState,
    id: Seq<char>,
    state: AccessRequestState,
    user: Option<Seq<char>>,
    at: Seq<char>,
)
    ensures
        ({
            let after = st.deciding_request(id, state, user, at);
            &&& only_requests_change(st, after)
            &&& match st.request(id) {
                Some(q) => exists|k: int|
                    #[trigger] differ_only_at(st.requests, after.requests, k) && st.requests[k] == q
                        && after.requests[k] == (rows::RequestView {
                        state,
                        resulting_user_id: user,
                        decided_at: Some(at),
                        ..q
                    }),
                None => after == st,
            }
        }),
{
    let k = lemma_updated(
        st.requests,
        tables::request_id_is(id),
        super::store::request_decided(state, user, at),
    );
    if st.request(id) is Some {
        assert(differ_only_at(
            st.requests,
            st.deciding_request(id, state, user, at).requests,
            k,
        ));
    }
}

/// Collecting a credential stamps that request as collected.
pub proof fn collecting_marks_that_request(st: AuthState, id: Seq<char>, at: Seq<char>)
    ensures
        only_requests_change(st, st.collecting_request(id, at)),
        match st.request(id) {
            Some(q) => exists|k: int|
                #[trigger] differ_only_at(st.requests, st.collecting_request(id, at).requests, k)
                    && st.requests[k] == q && st.collecting_request(id, at).requests[k] == (
                rows::RequestView { collected_at: Some(at), ..q }),
            None => st.collecting_request(id, at) == st,
        },
{
    let k = lemma_updated(
        st.requests,
        tables::request_id_is(id),
        super::store::request_collected(at),
    );
    if st.request(id) is Some {
        assert(differ_only_at(st.requests, st.collecting_request(id, at).requests, k));
    }
}

/// Setting a role changes that user's role.
pub proof fn setting_a_role_changes_that_user(st: AuthState, id: Seq<char>, role: Role)
    ensures
        only_users_change(st, st.setting_role(id, role)),
        match st.user(id) {
            Some(u) => exists|k: int|
                #[trigger] differ_only_at(st.users, st.setting_role(id, role).users, k)
                    && st.users[k] == u && st.setting_role(id, role).users[k] == (rows::UserView {
                    role,
                    ..u
                }),
            None => st.setting_role(id, role) == st,
        },
{
    let k = lemma_updated(st.users, tables::user_id_is(id), super::store::with_role(role));
    if st.user(id) is Some {
        assert(differ_only_at(st.users, st.setting_role(id, role).users, k));
    }
}

// ---------------------------------------------------------------------------
// Changes of several rows
// ---------------------------------------------------------------------------
/// Burning a family revokes each of its tokens that is not revoked yet, and touches no other
/// token.
pub proof fn burning_revokes_the_live_tokens_of_the_family(
    st: AuthState,
    family: Seq<char>,
    at: Seq<char>,
    i: int,
)
    requires
        0 <= i < st.tokens.len(),
    ensures
        only_tokens_change(st, st.burning_family(family, at)),
        st.burning_family(family, at).tokens.len() == st.tokens.len(),
        ({
            let t = st.tokens[i];
            let u = st.burning_family(family, at).tokens[i];
            &&& t.family_id == Some(family) && t.revoked_at is None ==> u == (rows::TokenView {
                revoked_at: Some(at),
                ..t
            })
            &&& t.family_id != Some(family) || t.revoked_at is Some ==> u == t
        }),
{
}

proof fn lemma_filtered<V>(s: Seq<V>, p: spec_fn(V) -> bool, x: V)
    ensures
        s.filter(p).contains(x) <==> s.contains(x) && p(x),
    decreases s.len(),
{
    reveal(Seq::filter);
    if s.len() > 0 {
        let t = s.drop_last();
        lemma_filtered(t, p, x);
        if t.contains(x) {
            let i = choose|i: int| 0 <= i < t.len() && t[i] == x;
            assert(s[i] == x);
        }
        if s.contains(x) && x != s.last() {
            let i = choose|i: int| 0 <= i < s.len() && s[i] == x;
            assert(t[i] == x);
        }
        if p(s.last()) {
            let f = t.filter(p);
            let g = f.push(s.last());
            assert(s.filter(p) == g);
            if f.contains(x) {
                let i = choose|i: int| 0 <= i < f.len() && f[i] == x;
                assert(g[i] == x);
            }
            if g.contains(x) && x != s.last() {
                let i = choose|i: int| 0 <= i < g.len() && g[i] == x;
                assert(f[i] == x);
            }
            assert(g[f.len() as int] == s.last());
        }
        assert(s[s.len() - 1] == s.last());
    }
}

/// A grant is there once it was granted, in place of one of the same store and user; all other
/// grants stay, and no other comes.
pub proof fn granting_adds_that_grant(st: AuthState, g: rows::GrantView, x: rows::GrantView)
    ensures
        only_grants_change(st, st.granting(g)),
        st.granting(g).grants.contains(x) <==> x == g || (st.grants.contains(x) && !(x.store_name
            == g.store_name && x.user_id == g.user_id)),
{
    let p = tables::grant_other_than(g.store_name, g.user_id);
    lemma_filtered(st.grants, p, x);
    let f = st.grants.filter(p);
    let after = st.granting(g).grants;
    if f.contains(x) {
        let i = choose|i: int| 0 <= i < f.len() && f[i] == x;
        assert(after[i] == x);
    }
    assert(after[f.len() as int] == g);
    if after.contains(x) && x != g {
        let i = choose|i: int| 0 <= i < after.len() && after[i] == x;
        assert(f[i] == x);
    }
}

/// A grant that was taken back is gone; all other grants stay, and none comes.
pub proof fn taking_back_removes_that_grant(
    st: AuthState,
    store: Seq<char>,
    user: Seq<char>,
    x: rows::GrantView,
)
    ensures
        only_grants_change(st, st.revoking_grant(store, user)),
        st.revoking_grant(store, user).grants.contains(x) <==> st.grants.contains(x) && !(
        x.store_name == store && x.user_id == user),
{
    lemma_filtered(st.grants, tables::grant_other_than(store, user), x);
}

/// The tokens and the grants of a user, the grants of a store and the requests through an invite
/// are exactly those.
pub proof fn listings_hold_exactly_their_rows(
    st: AuthState,
    key: Seq<char>,
    t: rows::TokenView,
    g: rows::GrantView,
    q: rows::RequestView,
)
    ensures
        st.tokens.filter(tables::token_of(key)).contains(t) <==> st.tokens.contains(t) && t.user_id
            == key,
        st.grants.filter(tables::grant_to(key)).contains(g) <==> st.grants.contains(g) && g.user_id
            == key,
        st.grants.filter(tables::grant_on(key)).contains(g) <==> st.grants.contains(g)
            && g.store_name == key,
        st.requests.filter(tables::request_through(key)).contains(q) <==> st.requests.contains(q)
            && q.invite_id == key,
{
    lemma_filtered(st.tokens, tables::token_of(key), t);
    lemma_filtered(st.grants, tables::grant_to(key), g);
    lemma_filtered(st.grants, tables::grant_on(key), g);
    lemma_filtered(st.requests, tables::request_through(key), q);
}

/// A user who is deleted is gone, with every token and grant, and no request names the user any
/// more. Other users, their tokens and their grants stay, as do codes, clients and invites.
pub proof fn deleting_takes_all_that_is_the_users(
    st: AuthState,
    id: Seq<char>,
    u: rows::UserView,
    t: rows::TokenView,
    g: rows::GrantView,
    i: int,
)
    requires
        st.user(id) is Some,
        0 <= i < st.requests.len(),
    ensures
        ({
            let after = st.without_user(id);
            &&& after.users.contains(u) <==> st.users.contains(u) && u.id != id
            &&& after.tokens.contains(t) <==> st.tokens.contains(t) && t.user_id != id
            &&& after.grants.contains(g) <==> st.grants.contains(g) && g.user_id != id
            &&& after.requests.len() == st.requests.len()
            &&& st.requests[i].resulting_user_id != Some(id) ==> after.requests[i]
                == st.requests[i]
            &&& st.requests[i].resulting_user_id == Some(id) ==> after.requests[i] == (
            rows::RequestView { resulting_user_id: None, ..st.requests[i] })
            &&& after.codes == st.codes
            &&& after.clients == st.clients
            &&& after.invites == st.invites
        }),
{
    lemma_filtered(st.users, tables::user_id_is_not(id), u);
    lemma_filtered(st.tokens, tables::token_not_of(id), t);
    lemma_filtered(st.grants, tables::grant_not_to(id), g);
}

/// Whoever is not there cannot be deleted.
pub proof fn deleting_nobody_changes_nothing(st: AuthState, id: Seq<char>)
    requires
        forall|j: int| 0 <= j < st.users.len() ==> (#[trigger] st.users[j]).id != id,
    ensures
        st.without_user(id) == st,
{
    let p = tables::user_id_is(id);
    let k = lemma_found(st.users, p);
    if st.user(id) is Some {
        assert(p(st.users[k]));
    }
}

/// What is added is the last of its kind, and nothing else changes.
pub proof fn additions_go_behind_the_others(
    st: AuthState,
    u: rows::UserView,
    t: rows::TokenView,
    c: rows::CodeView,
    d: rows::ClientView,
    v: rows::InviteView,
    q: rows::RequestView,
)
    ensures
        st.adding_user(u) == (AuthState { users: st.users.push(u), ..st }),
        st.adding_token(t) == (AuthState { tokens: st.tokens.push(t), ..st }),
        st.adding_code(c) == (AuthState { codes: st.codes.push(c), ..st }),
        st.adding_client(d) == (AuthState { clients: st.clients.push(d), ..st }),
        st.adding_invite(v) == (AuthState { invites: st.invites.push(v), ..st }),
        st.adding_request(q) == (AuthState { requests: st.requests.push(q), ..st }),
{
}

/// The last admin is an admin besides whom there is none.
pub proof fn the_last_admin_is_the_only_one(st: AuthState, id: Seq<char>)
    requires
        forall|i: int, j: int|
            0 <= i < j < st.users.len() ==> (#[trigger] st.users[i]).id != (
            #[trigger] st.users[j]).id,
    ensures
        st.is_last_admin(id) <==> {
            &&& exists|i: int|
                0 <= i < st.users.len() && (#[trigger] st.users[i]).id == id && st.users[i].role
                    == Role::Admin
            &&& forall|j: int|
                0 <= j < st.users.len() && (#[trigger] st.users[j]).role == Role::Admin
                    ==> st.users[j].id == id
        },
{
    let p = super::store::is_admin();
    if st.has_admin(id) {
        let i = choose|i: int|
            0 <= i < st.users.len() && (#[trigger] st.users[i]).id == id && st.users[i].role
                == Role::Admin;
        if st.admins() <= 1 {
            assert forall|j: int|
                0 <= j < st.users.len() && (#[trigger] st.users[j]).role
                    == Role::Admin implies st.users[j].id == id by {
                if j != i {
                    lemma_two_selected(st.users, p, i, j);
                }
            }
        } else {
            let (a, b) = lemma_two_admins(st.users, p);
            assert(st.users[a].id != st.users[b].id);
            assert(st.users[a].role == Role::Admin && st.users[b].role == Role::Admin);
        }
    }
}

proof fn lemma_one_selected<V>(s: Seq<V>, p: spec_fn(V) -> bool, i: int)
    requires
        0 <= i < s.len(),
        p(s[i]),
    ensures
        s.filter(p).len() >= 1,
    decreases s.len(),
{
    reveal(Seq::filter);
    if i < s.len() - 1 {
        assert(s.drop_last()[i] == s[i]);
        lemma_one_selected(s.drop_last(), p, i);
    }
}

proof fn lemma_two_selected<V>(s: Seq<V>, p: spec_fn(V) -> bool, i: int, j: int)
    requires
        0 <= i < s.len(),
        0 <= j < s.len(),
        i != j,
        p(s[i]),
        p(s[j]),
    ensures
        s.filter(p).len() >= 2,
    decreases s.len(),
{
    reveal(Seq::filter);
    let n = s.len() - 1;
    if i == n {
        assert(s.drop_last()[j] == s[j]);
        lemma_one_selected(s.drop_last(), p, j);
    } else if j == n {
        assert(s.drop_last()[i] == s[i]);
        lemma_one_selected(s.drop_last(), p, i);
    } else {
        assert(s.drop_last()[i] == s[i]);
        assert(s.drop_last()[j] == s[j]);
        lemma_two_selected(s.drop_last(), p, i, j);
    }
}

proof fn lemma_an_admin<V>(s: Seq<V>, p: spec_fn(V) -> bool) -> (i: int)
    requires
        s.filter(p).len() >= 1,
    ensures
        0 <= i < s.len(),
        p(s[i]),
    decreases s.len(),
{
    reveal(Seq::filter);
    if p(s.last()) {
        s.len() - 1
    } else {
        let i = lemma_an_admin(s.drop_last(), p);
        assert(s.drop_last()[i] == s[i]);
        i
    }
}

proof fn lemma_two_admins<V>(s: Seq<V>, p: spec_fn(V) -> bool) -> (r: (int, int))
    requires
        s.filter(p).len() >= 2,
    ensures
        0 <= r.0 < r.1 < s.len(),
        p(s[r.0]),
        p(s[r.1]),
    decreases s.len(),
{
    reveal(Seq::filter);
    if p(s.last()) {
        let i = lemma_an_admin(s.drop_last(), p);
        assert(s.drop_last()[i] == s[i]);
        (i, s.len() - 1)
    } else {
        let (i, j) = lemma_two_admins(s.drop_last(), p);
        assert(s.drop_last()[i] == s[i]);
        assert(s.drop_last()[j] == s[j]);
        (i, j)
    }
}

} // verus!
