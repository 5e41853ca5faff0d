//! Tables of rows: lookups, updates and selections.

use super::rows;
use super::rows::{
    AccessRequestRow, AuthCodeRow, AuthTokenRow, InviteRow, OAuthClientRow, StoreGrantRow, UserRow,
};
use crate::lists;
use crate::text;
use vstd::prelude::*;

verus! {

/// Users with this id.
pub open spec fn user_id_is(id: Seq<char>) -> spec_fn(rows::UserView) -> bool {
    |u: rows::UserView| u.id == id
}

/// Users with this name.
pub open spec fn user_name_is(name: Seq<char>) -> spec_fn(rows::UserView) -> bool {
    |u: rows::UserView| u.name == name
}

/// Tokens with this digest.
pub open spec fn token_hash_is(hash: Seq<char>) -> spec_fn(rows::TokenView) -> bool {
    |u: rows::TokenView| u.secret_hash == hash
}

/// Tokens with this id.
pub open spec fn token_id_is(id: Seq<char>) -> spec_fn(rows::TokenView) -> bool {
    |u: rows::TokenView| u.id == id
}

/// Codes with this digest.
pub open spec fn code_hash_is(hash: Seq<char>) -> spec_fn(rows::CodeView) -> bool {
    |u: rows::CodeView| u.code_hash == hash
}

/// Codes with this id.
pub open spec fn code_id_is(id: Seq<char>) -> spec_fn(rows::CodeView) -> bool {
    |u: rows::CodeView| u.id == id
}

/// Clients with this id.
pub open spec fn client_id_is(id: Seq<char>) -> spec_fn(rows::ClientView) -> bool {
    |u: rows::ClientView| u.id == id
}

/// Invites with this digest.
pub open spec fn invite_hash_is(hash: Seq<char>) -> spec_fn(rows::InviteView) -> bool {
    |u: rows::InviteView| u.token_hash == hash
}

/// Invites with this id.
pub open spec fn invite_id_is(id: Seq<char>) -> spec_fn(rows::InviteView) -> bool {
    |u: rows::InviteView| u.id == id
}

/// Requests with this id.
pub open spec fn request_id_is(id: Seq<char>) -> spec_fn(rows::RequestView) -> bool {
    |u: rows::RequestView| u.id == id
}

/// Users with another id.
pub open spec fn user_id_is_not(id: Seq<char>) -> spec_fn(rows::UserView) -> bool {
    |u: rows::UserView| u.id != id
}

/// Tokens of this user.
pub open spec fn token_of(user: Seq<char>) -> spec_fn(rows::TokenView) -> bool {
    |u: rows::TokenView| u.user_id == user
}

/// Tokens of other users.
pub open spec fn token_not_of(user: Seq<char>) -> spec_fn(rows::TokenView) -> bool {
    |u: rows::TokenView| u.user_id != user
}

/// Grants to this user.
pub open spec fn grant_to(user: Seq<char>) -> spec_fn(rows::GrantView) -> bool {
    |u: rows::GrantView| u.user_id == user
}

/// Grants to other users.
pub open spec fn grant_not_to(user: Seq<char>) -> spec_fn(rows::GrantView) -> bool {
    |u: rows::GrantView| u.user_id != user
}

/// Grants on this store.
pub open spec fn grant_on(store: Seq<char>) -> spec_fn(rows::GrantView) -> bool {
    |u: rows::GrantView| u.store_name == store
}

/// All grants but that of this user on this store.
pub open spec fn grant_other_than(store: Seq<char>, user: Seq<char>) -> spec_fn(rows::GrantView) -> bool {
    |u: rows::GrantView| !(u.store_name == store && u.user_id == user)
}

/// Requests through this invite.
pub open spec fn request_through(invite: Seq<char>) -> spec_fn(rows::RequestView) -> bool {
    |u: rows::RequestView| u.invite_id == invite
}

/// Position of the user with this id.
pub fn find_user(rows: &Vec<UserRow>, id: &str) -> (r: Option<usize>)
    ensures
        match r {
            Some(i) => i < rows.len() && lists::first_from(lists::views_of(rows@), user_id_is(id@), 0) == Some(
                i as int,
            ),
            None => lists::first_from(lists::views_of(rows@), user_id_is(id@), 0) is None,
        },
{
    let ghost p = user_id_is(id@);
    let mut i: usize = 0;
    while i < rows.len()
        invariant
            i <= rows.len(),
            p == user_id_is(id@),
            lists::first_from(lists::views_of(rows@), p, 0) == lists::first_from(lists::views_of(rows@), p, i as int),
        decreases rows.len() - i,
    {
        let row = &rows[i];
        assert(lists::views_of(rows@)[i as int] == row@);
        if text::str_eq(row.id.as_str(), id) {
            return Some(i);
        }
        i += 1;
    }
    None
}

/// Position of the first user with this name.
pub fn find_user_named(rows: &Vec<UserRow>, name: &str) -> (r: Option<usize>)
    ensures
        match r {
            Some(i) => i < rows.len() && lists::first_from(lists::views_of(rows@), user_name_is(name@), 0) == Some(
                i as int,
            ),
            None => lists::first_from(lists::views_of(rows@), user_name_is(name@), 0) is None,
        },
{
    let ghost p = user_name_is(name@);
    let mut i: usize = 0;
    while i < rows.len()
        invariant
            i <= rows.len(),
            p == user_name_is(name@),
            lists::first_from(lists::views_of(rows@), p, 0) == lists::first_from(lists::views_of(rows@), p, i as int),
        decreases rows.len() - i,
    {
        let row = &rows[i];
        assert(lists::views_of(rows@)[i as int] == row@);
        if text::str_eq(row.name.as_str(), name) {
            return Some(i);
        }
        i += 1;
    }
    None
}

/// Position of the first token with this digest.
pub fn find_token_hash(rows: &Vec<AuthTokenRow>, hash: &str) -> (r: Option<usize>)
    ensures
        match r {
            Some(i) => i < rows.len() && lists::first_from(lists::views_of(rows@), token_hash_is(hash@), 0) == Some(
                i as int,
            ),
            None => lists::first_from(lists::views_of(rows@), token_hash_is(hash@), 0) is None,
        },
{
    let ghost p = token_hash_is(hash@);
    let mut i: usize = 0;
    while i < rows.len()
        invariant
            i <= rows.len(),
            p == token_hash_is(hash@),
            lists::first_from(lists::views_of(rows@), p, 0) == lists::first_from(lists::views_of(rows@), p, i as int),
        decreases rows.len() - i,
    {
        let row = &rows[i];
        assert(lists::views_of(rows@)[i as int] == row@);
        if text::str_eq(row.secret_hash.as_str(), hash) {
            return Some(i);
        }
        i += 1;
    }
    None
}

/// Position of the token with this id.
pub fn find_token_id(rows: &Vec<AuthTokenRow>, id: &str) -> (r: Option<usize>)
    ensures
        match r {
            Some(i) => i < rows.len() && lists::first_from(lists::views_of(rows@), token_id_is(id@), 0) == Some(
                i as int,
            ),
            None => lists::first_from(lists::views_of(rows@), token_id_is(id@), 0) is None,
        },
{
    let ghost p = token_id_is(id@);
    let mut i: usize = 0;
    while i < rows.len()
        invariant
            i <= rows.len(),
            p == token_id_is(id@),
            lists::first_from(lists::views_of(rows@), p, 0) == lists::first_from(lists::views_of(rows@), p, i as int),
        decreases rows.len() - i,
    {
        let row = &rows[i];
        assert(lists::views_of(rows@)[i as int] == row@);
        if text::str_eq(row.id.as_str(), id) {
            return Some(i);
        }
        i += 1;
    }
    None
}

/// Position of the first code with this digest.
pub fn find_code_hash(rows: &Vec<AuthCodeRow>, hash: &str) -> (r: Option<usize>)
    ensures
        match r {
            Some(i) => i < rows.len() && lists::first_from(lists::views_of(rows@), code_hash_is(hash@), 0) == Some(
                i as int,
            ),
            None => lists::first_from(lists::views_of(rows@), code_hash_is(hash@), 0) is None,
        },
{
    let ghost p = code_hash_is(hash@);
    let mut i: usize = 0;
    while i < rows.len()
        invariant
            i <= rows.len(),
            p == code_hash_is(hash@),
            lists::first_from(lists::views_of(rows@), p, 0) == lists::first_from(lists::views_of(rows@), p, i as int),
        decreases rows.len() - i,
    {
        let row = &rows[i];
        assert(lists::views_of(rows@)[i as int] == row@);
        if text::str_eq(row.code_hash.as_str(), hash) {
            return Some(i);
        }
        i += 1;
    }
    None
}

/// Position of the code with this id.
pub fn find_code_id(rows: &Vec<AuthCodeRow>, id: &str) -> (r: Option<usize>)
    ensures
        match r {
            Some(i) => i < rows.len() && lists::first_from(lists::views_of(rows@), code_id_is(id@), 0) == Some(
                i as int,
            ),
            None => lists::first_from(lists::views_of(rows@), code_id_is(id@), 0) is None,
        },
{
    let ghost p = code_id_is(id@);
    let mut i: usize = 0;
    while i < rows.len()
        invariant
            i <= rows.len(),
            p == code_id_is(id@),
            lists::first_from(lists::views_of(rows@), p, 0) == lists::first_from(lists::views_of(rows@), p, i as int),
        decreases rows.len() - i,
    {
        let row = &rows[i];
        assert(lists::views_of(rows@)[i as int] == row@);
        if text::str_eq(row.id.as_str(), id) {
            return Some(i);
        }
        i += 1;
    }
    None
}

/// Position of the client with this id.
pub fn find_client_id(rows: &Vec<OAuthClientRow>, id: &str) -> (r: Option<usize>)
    ensures
        match r {
            Some(i) => i < rows.len() && lists::first_from(lists::views_of(rows@), client_id_is(id@), 0) == Some(
                i as int,
            ),
            None => lists::first_from(lists::views_of(rows@), client_id_is(id@), 0) is None,
        },
{
    let ghost p = client_id_is(id@);
    let mut i: usize = 0;
    while i < rows.len()
        invariant
            i <= rows.len(),
            p == client_id_is(id@),
            lists::first_from(lists::views_of(rows@), p, 0) == lists::first_from(lists::views_of(rows@), p, i as int),
        decreases rows.len() - i,
    {
        let row = &rows[i];
        assert(lists::views_of(rows@)[i as int] == row@);
        if text::str_eq(row.id.as_str(), id) {
            return Some(i);
        }
        i += 1;
    }
    None
}

/// Position of the first invite with this digest.
pub fn find_invite_hash(rows: &Vec<InviteRow>, hash: &str) -> (r: Option<usize>)
    ensures
        match r {
            Some(i) => i < rows.len() && lists::first_from(lists::views_of(rows@), invite_hash_is(hash@), 0) == Some(
                i as int,
            ),
            None => lists::first_from(lists::views_of(rows@), invite_hash_is(hash@), 0) is None,
        },
{
    let ghost p = invite_hash_is(hash@);
    let mut i: usize = 0;
    while i < rows.len()
        invariant
            i <= rows.len(),
            p == invite_hash_is(hash@),
            lists::first_from(lists::views_of(rows@), p, 0) == lists::first_from(lists::views_of(rows@), p, i as int),
        decreases rows.len() - i,
    {
        let row = &rows[i];
        assert(lists::views_of(rows@)[i as int] == row@);
        if text::str_eq(row.token_hash.as_str(), hash) {
            return Some(i);
        }
        i += 1;
    }
    None
}

/// Position of the invite with this id.
pub fn find_invite_id(rows: &Vec<InviteRow>, id: &str) -> (r: Option<usize>)
    ensures
        match r {
            Some(i) => i < rows.len() && lists::first_from(lists::views_of(rows@), invite_id_is(id@), 0) == Some(
                i as int,
            ),
            None => lists::first_from(lists::views_of(rows@), invite_id_is(id@), 0) is None,
        },
{
    let ghost p = invite_id_is(id@);
    let mut i: usize = 0;
    while i < rows.len()
        invariant
            i <= rows.len(),
            p == invite_id_is(id@),
            lists::first_from(lists::views_of(rows@), p, 0) == lists::first_from(lists::views_of(rows@), p, i as int),
        decreases rows.len() - i,
    {
        let row = &rows[i];
        assert(lists::views_of(rows@)[i as int] == row@);
        if text::str_eq(row.id.as_str(), id) {
            return Some(i);
        }
        i += 1;
    }
    None
}

/// Position of the request with this id.
pub fn find_request_id(rows: &Vec<AccessRequestRow>, id: &str) -> (r: Option<usize>)
    ensures
        match r {
            Some(i) => i < rows.len() && lists::first_from(lists::views_of(rows@), request_id_is(id@), 0) == Some(
                i as int,
            ),
            None => lists::first_from(lists::views_of(rows@), request_id_is(id@), 0) is None,
        },
{
    let ghost p = request_id_is(id@);
    let mut i: usize = 0;
    while i < rows.len()
        invariant
            i <= rows.len(),
            p == request_id_is(id@),
            lists::first_from(lists::views_of(rows@), p, 0) == lists::first_from(lists::views_of(rows@), p, i as int),
        decreases rows.len() - i,
    {
        let row = &rows[i];
        assert(lists::views_of(rows@)[i as int] == row@);
        if text::str_eq(row.id.as_str(), id) {
            return Some(i);
        }
        i += 1;
    }
    None
}

/// The users with other ids.
pub fn users_other_than(rows: &Vec<UserRow>, id: &str) -> (r: Vec<UserRow>)
    ensures
        lists::views_of(r@) == lists::views_of(rows@).filter(user_id_is_not(id@)),
{
    let ghost s = lists::views_of(rows@);
    let ghost p = user_id_is_not(id@);
    let mut out: Vec<UserRow> = Vec::new();
    let mut i: usize = 0;
    proof {
        reveal(Seq::filter);
        assert(s.take(0).filter(p) =~= lists::views_of(out@));
    }
    while i < rows.len()
        invariant
            i <= rows.len(),
            s == lists::views_of(rows@),
            p == user_id_is_not(id@),
            lists::views_of(out@) == s.take(i as int).filter(p),
        decreases rows.len() - i,
    {
        let row = &rows[i];
        proof {
            lists::lemma_filter_step(s, p, i as int);
        }
        if !text::str_eq(row.id.as_str(), id) {
            let c = row.copied();
            proof {
                lists::lemma_views_push(out@, c);
            }
            out.push(c);
        }
        i += 1;
    }
    assert(s.take(s.len() as int) =~= s);
    out
}

/// The tokens of a user.
pub fn tokens_of(rows: &Vec<AuthTokenRow>, user: &str) -> (r: Vec<AuthTokenRow>)
    ensures
        lists::views_of(r@) == lists::views_of(rows@).filter(token_of(user@)),
{
    let ghost s = lists::views_of(rows@);
    let ghost p = token_of(user@);
    let mut out: Vec<AuthTokenRow> = Vec::new();
    let mut i: usize = 0;
    proof {
        reveal(Seq::filter);
        assert(s.take(0).filter(p) =~= lists::views_of(out@));
    }
    while i < rows.len()
        invariant
            i <= rows.len(),
            s == lists::views_of(rows@),
            p == token_of(user@),
            lists::views_of(out@) == s.take(i as int).filter(p),
        decreases rows.len() - i,
    {
        let row = &rows[i];
        proof {
            lists::lemma_filter_step(s, p, i as int);
        }
        if text::str_eq(row.user_id.as_str(), user) {
            let c = row.copied();
            proof {
                lists::lemma_views_push(out@, c);
            }
            out.push(c);
        }
        i += 1;
    }
    assert(s.take(s.len() as int) =~= s);
    out
}

/// The tokens of other users.
pub fn tokens_not_of(rows: &Vec<AuthTokenRow>, user: &str) -> (r: Vec<AuthTokenRow>)
    ensures
        lists::views_of(r@) == lists::views_of(rows@).filter(token_not_of(user@)),
{
    let ghost s = lists::views_of(rows@);
    let ghost p = token_not_of(user@);
    let mut out: Vec<AuthTokenRow> = Vec::new();
    let mut i: usize = 0;
    proof {
        reveal(Seq::filter);
        assert(s.take(0).filter(p) =~= lists::views_of(out@));
    }
    while i < rows.len()
        invariant
            i <= rows.len(),
            s == lists::views_of(rows@),
            p == token_not_of(user@),
            lists::views_of(out@) == s.take(i as int).filter(p),
        decreases rows.len() - i,
    {
        let row = &rows[i];
        proof {
            lists::lemma_filter_step(s, p, i as int);
        }
        if !text::str_eq(row.user_id.as_str(), user) {
            let c = row.copied();
            proof {
                lists::lemma_views_push(out@, c);
            }
            out.push(c);
        }
        i += 1;
    }
    assert(s.take(s.len() as int) =~= s);
    out
}

/// The grants to a user.
pub fn grants_to(rows: &Vec<StoreGrantRow>, user: &str) -> (r: Vec<StoreGrantRow>)
    ensures
        lists::views_of(r@) == lists::views_of(rows@).filter(grant_to(user@)),
{
    let ghost s = lists::views_of(rows@);
    let ghost p = grant_to(user@);
    let mut out: Vec<StoreGrantRow> = Vec::new();
    let mut i: usize = 0;
    proof {
        reveal(Seq::filter);
        assert(s.take(0).filter(p) =~= lists::views_of(out@));
    }
    while i < rows.len()
        invariant
            i <= rows.len(),
            s == lists::views_of(rows@),
            p == grant_to(user@),
            lists::views_of(out@) == s.take(i as int).filter(p),
        decreases rows.len() - i,
    {
        let row = &rows[i];
        proof {
            lists::lemma_filter_step(s, p, i as int);
        }
        if text::str_eq(row.user_id.as_str(), user) {
            let c = row.copied();
            proof {
                lists::lemma_views_push(out@, c);
            }
            out.push(c);
        }
        i += 1;
    }
    assert(s.take(s.len() as int) =~= s);
    out
}

/// The grants to other users.
pub fn grants_not_to(rows: &Vec<StoreGrantRow>, user: &str) -> (r: Vec<StoreGrantRow>)
    ensures
        lists::views_of(r@) == lists::views_of(rows@).filter(grant_not_to(user@)),
{
    let ghost s = lists::views_of(rows@);
    let ghost p = grant_not_to(user@);
    let mut out: Vec<StoreGrantRow> = Vec::new();
    let mut i: usize = 0;
    proof {
        reveal(Seq::filter);
        assert(s.take(0).filter(p) =~= lists::views_of(out@));
    }
    while i < rows.len()
        invariant
            i <= rows.len(),
            s == lists::views_of(rows@),
            p == grant_not_to(user@),
            lists::views_of(out@) == s.take(i as int).filter(p),
        decreases rows.len() - i,
    {
        let row = &rows[i];
        proof {
            lists::lemma_filter_step(s, p, i as int);
        }
        if !text::str_eq(row.user_id.as_str(), user) {
            let c = row.copied();
            proof {
                lists::lemma_views_push(out@, c);
            }
            out.push(c);
        }
        i += 1;
    }
    assert(s.take(s.len() as int) =~= s);
    out
}

/// The grants on a store.
pub fn grants_on(rows: &Vec<StoreGrantRow>, store: &str) -> (r: Vec<StoreGrantRow>)
    ensures
        lists::views_of(r@) == lists::views_of(rows@).filter(grant_on(store@)),
{
    let ghost s = lists::views_of(rows@);
    let ghost p = grant_on(store@);
    let mut out: Vec<StoreGrantRow> = Vec::new();
    let mut i: usize = 0;
    proof {
        reveal(Seq::filter);
        assert(s.take(0).filter(p) =~= lists::views_of(out@));
    }
    while i < rows.len()
        invariant
            i <= rows.len(),
            s == lists::views_of(rows@),
            p == grant_on(store@),
            lists::views_of(out@) == s.take(i as int).filter(p),
        decreases rows.len() - i,
    {
        let row = &rows[i];
        proof {
            lists::lemma_filter_step(s, p, i as int);
        }
        if text::str_eq(row.store_name.as_str(), store) {
            let c = row.copied();
            proof {
                lists::lemma_views_push(out@, c);
            }
            out.push(c);
        }
        i += 1;
    }
    assert(s.take(s.len() as int) =~= s);
    out
}

/// The grants without that of a user on a store.
pub fn grants_other_than(rows: &Vec<StoreGrantRow>, store: &str, user: &str) -> (r: Vec<StoreGrantRow>)
    ensures
        lists::views_of(r@) == lists::views_of(rows@).filter(grant_other_than(store@, user@)),
{
    let ghost s = lists::views_of(rows@);
    let ghost p = grant_other_than(store@, user@);
    let mut out: Vec<StoreGrantRow> = Vec::new();
    let mut i: usize = 0;
    proof {
        reveal(Seq::filter);
        assert(s.take(0).filter(p) =~= lists::views_of(out@));
    }
    while i < rows.len()
        invariant
            i <= rows.len(),
            s == lists::views_of(rows@),
            p == grant_other_than(store@, user@),
            lists::views_of(out@) == s.take(i as int).filter(p),
        decreases rows.len() - i,
    {
        let row = &rows[i];
        proof {
            lists::lemma_filter_step(s, p, i as int);
        }
        if !(text::str_eq(row.store_name.as_str(), store) && text::str_eq(row.user_id.as_str(), user)) {
            let c = row.copied();
            proof {
                lists::lemma_views_push(out@, c);
            }
            out.push(c);
        }
        i += 1;
    }
    assert(s.take(s.len() as int) =~= s);
    out
}

/// The requests through an invite.
pub fn requests_through(rows: &Vec<AccessRequestRow>, invite: &str) -> (r: Vec<AccessRequestRow>)
    ensures
        lists::views_of(r@) == lists::views_of(rows@).filter(request_through(invite@)),
{
    let ghost s = lists::views_of(rows@);
    let ghost p = request_through(invite@);
    let mut out: Vec<AccessRequestRow> = Vec::new();
    let mut i: usize = 0;
    proof {
        reveal(Seq::filter);
        assert(s.take(0).filter(p) =~= lists::views_of(out@));
    }
    while i < rows.len()
        invariant
            i <= rows.len(),
            s == lists::views_of(rows@),
            p == request_through(invite@),
            lists::views_of(out@) == s.take(i as int).filter(p),
        decreases rows.len() - i,
    {
        let row = &rows[i];
        proof {
            lists::lemma_filter_step(s, p, i as int);
        }
        if text::str_eq(row.invite_id.as_str(), invite) {
            let c = row.copied();
            proof {
                lists::lemma_views_push(out@, c);
            }
            out.push(c);
        }
        i += 1;
    }
    assert(s.take(s.len() as int) =~= s);
    out
}

/// A copy of the users.
pub fn copy_users(rows: &Vec<UserRow>) -> (r: Vec<UserRow>)
    ensures
        lists::views_of(r@) == lists::views_of(rows@),
{
    let mut out: Vec<UserRow> = Vec::new();
    let mut i: usize = 0;
    while i < rows.len()
        invariant
            i <= rows.len(),
            out.len() == i,
            forall|j: int| 0 <= j < i ==> (#[trigger] out@[j])@ == rows@[j]@,
        decreases rows.len() - i,
    {
        out.push(rows[i].copied());
        i += 1;
    }
    assert(lists::views_of(out@) =~= lists::views_of(rows@));
    out
}

/// A copy of the invites.
pub fn copy_invites(rows: &Vec<InviteRow>) -> (r: Vec<InviteRow>)
    ensures
        lists::views_of(r@) == lists::views_of(rows@),
{
    let mut out: Vec<InviteRow> = Vec::new();
    let mut i: usize = 0;
    while i < rows.len()
        invariant
            i <= rows.len(),
            out.len() == i,
            forall|j: int| 0 <= j < i ==> (#[trigger] out@[j])@ == rows@[j]@,
        decreases rows.len() - i,
    {
        out.push(rows[i].copied());
        i += 1;
    }
    assert(lists::views_of(out@) =~= lists::views_of(rows@));
    out
}

/// A copy of the requests.
pub fn copy_requests(rows: &Vec<AccessRequestRow>) -> (r: Vec<AccessRequestRow>)
    ensures
        lists::views_of(r@) == lists::views_of(rows@),
{
    let mut out: Vec<AccessRequestRow> = Vec::new();
    let mut i: usize = 0;
    while i < rows.len()
        invariant
            i <= rows.len(),
            out.len() == i,
            forall|j: int| 0 <= j < i ==> (#[trigger] out@[j])@ == rows@[j]@,
        decreases rows.len() - i,
    {
        out.push(rows[i].copied());
        i += 1;
    }
    assert(lists::views_of(out@) =~= lists::views_of(rows@));
    out
}

} // verus!
