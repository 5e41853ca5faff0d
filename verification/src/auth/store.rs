//! The store behind the auth policy.
//!
//! [`AuthStore`] is what the policy needs of a database; [`FakeAuthStore`] keeps everything
//! in memory. An [`AuthState`] is the content of a store, as a mathematical value.

use super::principal::Role;
use super::rows;
use super::rows::{
    AccessRequestRow, AccessRequestState, AuthCodeRow, AuthTokenRow, InviteRow, OAuthClientRow,
    StoreGrantRow, UserRow,
};
use super::tables;
use crate::error::{Error, ErrorView};
use crate::lists;
use crate::text;
use vstd::prelude::*;

verus! {

/// The content of a store.
#[verifier::ext_equal]
pub struct AuthState {
    pub users: Seq<rows::UserView>,
    pub tokens: Seq<rows::TokenView>,
    pub codes: Seq<rows::CodeView>,
    pub clients: Seq<rows::ClientView>,
    pub grants: Seq<rows::GrantView>,
    pub invites: Seq<rows::InviteView>,
    pub requests: Seq<rows::RequestView>,
}

/// The predicate of being an admin.
pub open spec fn is_admin() -> spec_fn(rows::UserView) -> bool {
    |u: rows::UserView| u.role == Role::Admin
}

/// The predicate of being a token of a family that is not revoked.
pub open spec fn live_in_family(family: Seq<char>) -> spec_fn(rows::TokenView) -> bool {
    |t: rows::TokenView| t.family_id == Some(family) && t.revoked_at is None
}

pub open spec fn with_role(role: Role) -> spec_fn(rows::UserView) -> rows::UserView {
    |u: rows::UserView| rows::UserView { role, ..u }
}

pub open spec fn token_revoked(at: Seq<char>) -> spec_fn(rows::TokenView) -> rows::TokenView {
    |t: rows::TokenView| rows::TokenView { revoked_at: Some(at), ..t }
}

pub open spec fn token_used(at: Seq<char>) -> spec_fn(rows::TokenView) -> rows::TokenView {
    |t: rows::TokenView| rows::TokenView { last_used_at: Some(at), ..t }
}

pub open spec fn code_consumed(at: Seq<char>) -> spec_fn(rows::CodeView) -> rows::CodeView {
    |c: rows::CodeView| rows::CodeView { consumed_at: Some(at), ..c }
}

pub open spec fn invite_revoked(at: Seq<char>) -> spec_fn(rows::InviteView) -> rows::InviteView {
    |i: rows::InviteView| rows::InviteView { revoked_at: Some(at), ..i }
}

pub open spec fn use_taken() -> spec_fn(rows::InviteView) -> rows::InviteView {
    |i: rows::InviteView| rows::InviteView { uses: (i.uses + 1) as u32, ..i }
}

pub open spec fn use_returned() -> spec_fn(rows::InviteView) -> rows::InviteView {
    |i: rows::InviteView|
        rows::InviteView {
            uses: if i.uses == 0 {
                0
            } else {
                (i.uses - 1) as u32
            },
            ..i
        }
}

pub open spec fn request_decided(
    state: AccessRequestState,
    user: Option<Seq<char>>,
    at: Seq<char>,
) -> spec_fn(rows::RequestView) -> rows::RequestView {
    |r: rows::RequestView|
        rows::RequestView { state, resulting_user_id: user, decided_at: Some(at), ..r }
}

pub open spec fn request_collected(at: Seq<char>) -> spec_fn(rows::RequestView) -> rows::RequestView {
    |r: rows::RequestView| rows::RequestView { collected_at: Some(at), ..r }
}

/// The request, no longer naming the user of the given id.
pub open spec fn forgetting(r: rows::RequestView, user: Seq<char>) -> rows::RequestView {
    if r.resulting_user_id == Some(user) {
        rows::RequestView { resulting_user_id: None, ..r }
    } else {
        r
    }
}

/// The token, revoked if it is a live one of the family.
pub open spec fn burnt(t: rows::TokenView, family: Seq<char>, at: Seq<char>) -> rows::TokenView {
    if live_in_family(family)(t) {
        token_revoked(at)(t)
    } else {
        t
    }
}

impl AuthState {
    pub open spec fn user(self, id: Seq<char>) -> Option<rows::UserView> {
        lists::found(self.users, tables::user_id_is(id))
    }

    pub open spec fn user_named(self, name: Seq<char>) -> Option<rows::UserView> {
        lists::found(self.users, tables::user_name_is(name))
    }

    pub open spec fn token_with(self, hash: Seq<char>) -> Option<rows::TokenView> {
        lists::found(self.tokens, tables::token_hash_is(hash))
    }

    pub open spec fn token(self, id: Seq<char>) -> Option<rows::TokenView> {
        lists::found(self.tokens, tables::token_id_is(id))
    }

    pub open spec fn code_with(self, hash: Seq<char>) -> Option<rows::CodeView> {
        lists::found(self.codes, tables::code_hash_is(hash))
    }

    pub open spec fn code(self, id: Seq<char>) -> Option<rows::CodeView> {
        lists::found(self.codes, tables::code_id_is(id))
    }

    pub open spec fn client(self, id: Seq<char>) -> Option<rows::ClientView> {
        lists::found(self.clients, tables::client_id_is(id))
    }

    pub open spec fn invite_with(self, hash: Seq<char>) -> Option<rows::InviteView> {
        lists::found(self.invites, tables::invite_hash_is(hash))
    }

    pub open spec fn invite(self, id: Seq<char>) -> Option<rows::InviteView> {
        lists::found(self.invites, tables::invite_id_is(id))
    }

    pub open spec fn request(self, id: Seq<char>) -> Option<rows::RequestView> {
        lists::found(self.requests, tables::request_id_is(id))
    }

    /// How many admins there are.
    pub open spec fn admins(self) -> nat {
        self.users.filter(is_admin()).len()
    }

    /// Whether some user of the id is an admin.
    pub open spec fn has_admin(self, id: Seq<char>) -> bool {
        exists|i: int|
            0 <= i < self.users.len() && (#[trigger] self.users[i]).id == id && self.users[i].role
                == Role::Admin
    }

    /// Whether the user is the only admin left.
    pub open spec fn is_last_admin(self, id: Seq<char>) -> bool {
        self.has_admin(id) && self.admins() <= 1
    }

    pub open spec fn adding_user(self, u: rows::UserView) -> AuthState {
        AuthState { users: self.users.push(u), ..self }
    }

    /// Without users of the id, their tokens and their grants; requests forget them.
    pub open spec fn scrubbed(self, id: Seq<char>) -> AuthState {
        AuthState {
            users: self.users.filter(tables::user_id_is_not(id)),
            tokens: self.tokens.filter(tables::token_not_of(id)),
            grants: self.grants.filter(tables::grant_not_to(id)),
            requests: Seq::new(self.requests.len(), |i: int| forgetting(self.requests[i], id)),
            ..self
        }
    }

    /// Without the user, the user's tokens and the user's grants; requests forget the user.
    pub open spec fn without_user(self, id: Seq<char>) -> AuthState {
        if self.user(id) is None {
            self
        } else {
            self.scrubbed(id)
        }
    }

    pub open spec fn setting_role(self, id: Seq<char>, role: Role) -> AuthState {
        AuthState {
            users: lists::updated(self.users, tables::user_id_is(id), with_role(role)),
            ..self
        }
    }

    pub open spec fn adding_token(self, t: rows::TokenView) -> AuthState {
        AuthState { tokens: self.tokens.push(t), ..self }
    }

    pub open spec fn revoking_token(self, id: Seq<char>, at: Seq<char>) -> AuthState {
        AuthState {
            tokens: lists::updated(self.tokens, tables::token_id_is(id), token_revoked(at)),
            ..self
        }
    }

    pub open spec fn burning_family(self, family: Seq<char>, at: Seq<char>) -> AuthState {
        AuthState {
            tokens: Seq::new(self.tokens.len(), |i: int| burnt(self.tokens[i], family, at)),
            ..self
        }
    }

    pub open spec fn using_token(self, id: Seq<char>, at: Seq<char>) -> AuthState {
        AuthState {
            tokens: lists::updated(self.tokens, tables::token_id_is(id), token_used(at)),
            ..self
        }
    }

    pub open spec fn adding_code(self, c: rows::CodeView) -> AuthState {
        AuthState { codes: self.codes.push(c), ..self }
    }

    pub open spec fn consuming_code(self, id: Seq<char>, at: Seq<char>) -> AuthState {
        AuthState {
            codes: lists::updated(self.codes, tables::code_id_is(id), code_consumed(at)),
            ..self
        }
    }

    pub open spec fn adding_client(self, c: rows::ClientView) -> AuthState {
        AuthState { clients: self.clients.push(c), ..self }
    }

    /// With the grant, in place of an earlier one of the same store and user.
    pub open spec fn granting(self, g: rows::GrantView) -> AuthState {
        AuthState {
            grants: self.grants.filter(tables::grant_other_than(g.store_name, g.user_id)).push(g),
            ..self
        }
    }

    pub open spec fn revoking_grant(self, store: Seq<char>, user: Seq<char>) -> AuthState {
        AuthState {
            grants: self.grants.filter(tables::grant_other_than(store, user)),
            ..self
        }
    }

    pub open spec fn adding_invite(self, i: rows::InviteView) -> AuthState {
        AuthState { invites: self.invites.push(i), ..self }
    }

    pub open spec fn revoking_invite(self, id: Seq<char>, at: Seq<char>) -> AuthState {
        AuthState {
            invites: lists::updated(self.invites, tables::invite_id_is(id), invite_revoked(at)),
            ..self
        }
    }

    pub open spec fn taking_use(self, id: Seq<char>) -> AuthState {
        AuthState {
            invites: lists::updated(self.invites, tables::invite_id_is(id), use_taken()),
            ..self
        }
    }

    pub open spec fn returning_use(self, id: Seq<char>) -> AuthState {
        AuthState {
            invites: lists::updated(self.invites, tables::invite_id_is(id), use_returned()),
            ..self
        }
    }

    pub open spec fn adding_request(self, r: rows::RequestView) -> AuthState {
        AuthState { requests: self.requests.push(r), ..self }
    }

    pub open spec fn deciding_request(
        self,
        id: Seq<char>,
        state: AccessRequestState,
        user: Option<Seq<char>>,
        at: Seq<char>,
    ) -> AuthState {
        AuthState {
            requests: lists::updated(
                self.requests,
                tables::request_id_is(id),
                request_decided(state, user, at),
            ),
            ..self
        }
    }

    pub open spec fn collecting_request(self, id: Seq<char>, at: Seq<char>) -> AuthState {
        AuthState {
            requests: lists::updated(
                self.requests,
                tables::request_id_is(id),
                request_collected(at),
            ),
            ..self
        }
    }
}

/// The error for a user name that is taken.
pub open spec fn name_taken(name: Seq<char>) -> ErrorView {
    ErrorView::InvalidRequest { message: "user '"@ + name + "' already exists"@ }
}

/// The error for a user that does not exist.
pub open spec fn no_such_user(id: Seq<char>) -> ErrorView {
    ErrorView::InvalidRequest { message: "user '"@ + id + "' not found"@ }
}

/// The view of an optional row.
pub open spec fn opt_row<T: View>(r: Option<T>) -> Option<T::V> {
    match r {
        Some(x) => Some(x@),
        None => None,
    }
}

/// What the auth policy needs of a database.
///
/// A call that fails changes nothing. A conditional update that reports `false` changed
/// nothing either: its condition did not hold, or another writer was faster. A store that
/// is `ready` fails no call and has no other writers; one that `can_undo` may fail, but not
/// where something that was added is taken back.
pub trait AuthStore {
    /// The content.
    spec fn state(&self) -> AuthState;

    /// Whether every call is answered, and no other writer interferes.
    spec fn ready(&self) -> bool;

    /// Whether what was added can be taken back: deleting a user and giving back a use are
    /// answered, though other calls may fail or come too late.
    spec fn can_undo(&self) -> bool;

    /// Adds a user. The name must be new.
    fn create_user(&mut self, user: &UserRow) -> (r: Result<(), Error>)
        ensures
            r is Ok ==> old(self).state().user_named(user@.name) is None && final(self).state()
                == old(self).state().adding_user(user@),
            r is Err ==> final(self).state() == old(self).state(),
            old(self).can_undo() ==> final(self).can_undo(),
            old(self).ready() ==> final(self).ready() && (r is Err <==> old(self).state().user_named(
                user@.name,
            ) is Some) && (r is Err ==> r->Err_0@ == name_taken(user@.name)),
    ;

    /// Changes a user's role.
    fn update_user_role(&mut self, id: &str, role: Role) -> (r: Result<(), Error>)
        ensures
            r is Ok ==> old(self).state().user(id@) is Some && final(self).state() == old(
                self,
            ).state().setting_role(id@, role),
            r is Err ==> final(self).state() == old(self).state(),
            old(self).can_undo() ==> final(self).can_undo(),
            old(self).ready() ==> final(self).ready() && (r is Err <==> old(self).state().user(id@)
                is None) && (r is Err ==> r->Err_0@ == no_such_user(id@)),
    ;

    /// Revokes every live token of a family. Says how many.
    fn revoke_token_family(&mut self, family_id: &str, revoked_at: &str) -> (r: Result<u64, Error>)
        ensures
            r is Ok ==> final(self).state() == old(self).state().burning_family(
                family_id@,
                revoked_at@,
            ) && r->Ok_0 == old(self).state().tokens.filter(live_in_family(family_id@)).len(),
            r is Err ==> final(self).state() == old(self).state(),
            old(self).can_undo() ==> final(self).can_undo(),
            old(self).ready() ==> final(self).ready() && r is Ok,
    ;

    /// The user of the id.
    fn get_user(&self, id: &str) -> (r: Result<Option<UserRow>, Error>)
        ensures
            r is Ok ==> opt_row(r->Ok_0) == self.state().user(id@),
            self.ready() ==> r is Ok,
    ;

    /// The user of the name.
    fn get_user_by_name(&self, name: &str) -> (r: Result<Option<UserRow>, Error>)
        ensures
            r is Ok ==> opt_row(r->Ok_0) == self.state().user_named(name@),
            self.ready() ==> r is Ok,
    ;

    /// All users.
    fn list_users(&self) -> (r: Result<Vec<UserRow>, Error>)
        ensures
            r is Ok ==> lists::views_of(r->Ok_0@) == self.state().users,
            self.ready() ==> r is Ok,
    ;

    /// How many users there are.
    fn count_users(&self) -> (r: Result<u64, Error>)
        ensures
            r is Ok ==> r->Ok_0 == self.state().users.len(),
            self.ready() ==> r is Ok,
    ;

    /// The token whose secret has the digest.
    fn find_token_by_hash(&self, secret_hash: &str) -> (r: Result<Option<AuthTokenRow>, Error>)
        ensures
            r is Ok ==> opt_row(r->Ok_0) == self.state().token_with(secret_hash@),
            self.ready() ==> r is Ok,
    ;

    /// The token of the id.
    fn find_token(&self, id: &str) -> (r: Result<Option<AuthTokenRow>, Error>)
        ensures
            r is Ok ==> opt_row(r->Ok_0) == self.state().token(id@),
            self.ready() ==> r is Ok,
    ;

    /// The tokens of a user.
    fn list_tokens_for_user(&self, user_id: &str) -> (r: Result<Vec<AuthTokenRow>, Error>)
        ensures
            r is Ok ==> lists::views_of(r->Ok_0@) == self.state().tokens.filter(tables::token_of(user_id@)),
            self.ready() ==> r is Ok,
    ;

    /// The authorization code with the digest.
    fn find_auth_code_by_hash(&self, code_hash: &str) -> (r: Result<Option<AuthCodeRow>, Error>)
        ensures
            r is Ok ==> opt_row(r->Ok_0) == self.state().code_with(code_hash@),
            self.ready() ==> r is Ok,
    ;

    /// The registered client of the id.
    fn find_oauth_client(&self, id: &str) -> (r: Result<Option<OAuthClientRow>, Error>)
        ensures
            r is Ok ==> opt_row(r->Ok_0) == self.state().client(id@),
            self.ready() ==> r is Ok,
    ;

    /// The grants of a user.
    fn list_grants_for_user(&self, user_id: &str) -> (r: Result<Vec<StoreGrantRow>, Error>)
        ensures
            r is Ok ==> lists::views_of(r->Ok_0@) == self.state().grants.filter(tables::grant_to(user_id@)),
            self.ready() ==> r is Ok,
    ;

    /// The grants on a store.
    fn list_grants_for_store(&self, store_name: &str) -> (r: Result<Vec<StoreGrantRow>, Error>)
        ensures
            r is Ok ==> lists::views_of(r->Ok_0@) == self.state().grants.filter(tables::grant_on(store_name@)),
            self.ready() ==> r is Ok,
    ;

    /// The invite whose secret has the digest.
    fn find_invite_by_hash(&self, token_hash: &str) -> (r: Result<Option<InviteRow>, Error>)
        ensures
            r is Ok ==> opt_row(r->Ok_0) == self.state().invite_with(token_hash@),
            self.ready() ==> r is Ok,
    ;

    /// The invite of the id.
    fn find_invite(&self, id: &str) -> (r: Result<Option<InviteRow>, Error>)
        ensures
            r is Ok ==> opt_row(r->Ok_0) == self.state().invite(id@),
            self.ready() ==> r is Ok,
    ;

    /// All invites.
    fn list_invites(&self) -> (r: Result<Vec<InviteRow>, Error>)
        ensures
            r is Ok ==> lists::views_of(r->Ok_0@) == self.state().invites,
            self.ready() ==> r is Ok,
    ;

    /// The request of the id.
    fn find_access_request(&self, id: &str) -> (r: Result<Option<AccessRequestRow>, Error>)
        ensures
            r is Ok ==> opt_row(r->Ok_0) == self.state().request(id@),
            self.ready() ==> r is Ok,
    ;

    /// The requests made through an invite.
    fn list_access_requests_for_invite(&self, invite_id: &str) -> (r: Result<Vec<AccessRequestRow>, Error>)
        ensures
            r is Ok ==> lists::views_of(r->Ok_0@) == self.state().requests.filter(tables::request_through(invite_id@)),
            self.ready() ==> r is Ok,
    ;

    /// All requests, in the order they were made.
    fn list_access_requests(&self) -> (r: Result<Vec<AccessRequestRow>, Error>)
        ensures
            r is Ok ==> lists::views_of(r->Ok_0@) == self.state().requests,
            self.ready() ==> r is Ok,
    ;

    /// Adds a token.
    fn insert_token(&mut self, token: &AuthTokenRow) -> (r: Result<(), Error>)
        ensures
            r is Ok ==> final(self).state() == old(self).state().adding_token(token@),
            r is Err ==> final(self).state() == old(self).state(),
            old(self).can_undo() ==> final(self).can_undo(),
            old(self).ready() ==> final(self).ready() && r is Ok,
    ;

    /// Notes when a token was last used.
    fn mark_token_used(&mut self, id: &str, used_at: &str) -> (r: Result<(), Error>)
        ensures
            r is Ok ==> final(self).state() == old(self).state().using_token(id@, used_at@),
            r is Err ==> final(self).state() == old(self).state(),
            old(self).can_undo() ==> final(self).can_undo(),
            old(self).ready() ==> final(self).ready() && r is Ok,
    ;

    /// Adds an authorization code.
    fn create_auth_code(&mut self, code: &AuthCodeRow) -> (r: Result<(), Error>)
        ensures
            r is Ok ==> final(self).state() == old(self).state().adding_code(code@),
            r is Err ==> final(self).state() == old(self).state(),
            old(self).can_undo() ==> final(self).can_undo(),
            old(self).ready() ==> final(self).ready() && r is Ok,
    ;

    /// Adds a registered client.
    fn create_oauth_client(&mut self, client: &OAuthClientRow) -> (r: Result<(), Error>)
        ensures
            r is Ok ==> final(self).state() == old(self).state().adding_client(client@),
            r is Err ==> final(self).state() == old(self).state(),
            old(self).can_undo() ==> final(self).can_undo(),
            old(self).ready() ==> final(self).ready() && r is Ok,
    ;

    /// Grants a store, in place of an earlier grant of it to the same user.
    fn grant_store(&mut self, grant: &StoreGrantRow) -> (r: Result<(), Error>)
        ensures
            r is Ok ==> final(self).state() == old(self).state().granting(grant@),
            r is Err ==> final(self).state() == old(self).state(),
            old(self).can_undo() ==> final(self).can_undo(),
            old(self).ready() ==> final(self).ready() && r is Ok,
    ;

    /// Adds an invite.
    fn create_invite(&mut self, invite: &InviteRow) -> (r: Result<(), Error>)
        ensures
            r is Ok ==> final(self).state() == old(self).state().adding_invite(invite@),
            r is Err ==> final(self).state() == old(self).state(),
            old(self).can_undo() ==> final(self).can_undo(),
            old(self).ready() ==> final(self).ready() && r is Ok,
    ;

    /// Gives back a use that was taken.
    fn release_invite_use(&mut self, id: &str) -> (r: Result<(), Error>)
        ensures
            r is Ok ==> final(self).state() == old(self).state().returning_use(id@),
            r is Err ==> final(self).state() == old(self).state(),
            old(self).can_undo() ==> final(self).can_undo() && r is Ok,
            old(self).ready() ==> final(self).ready() && r is Ok,
    ;

    /// Adds a request.
    fn create_access_request(&mut self, req: &AccessRequestRow) -> (r: Result<(), Error>)
        ensures
            r is Ok ==> final(self).state() == old(self).state().adding_request(req@),
            r is Err ==> final(self).state() == old(self).state(),
            old(self).can_undo() ==> final(self).can_undo(),
            old(self).ready() ==> final(self).ready() && r is Ok,
    ;

    /// Deletes a user with the user's tokens and grants. Says whether there was one.
    fn delete_user(&mut self, id: &str) -> (r: Result<bool, Error>)
        ensures
            r is Ok && r->Ok_0 ==> old(self).state().user(id@) is Some,
            final(self).state() == (if r is Ok && r->Ok_0 {
                old(self).state().without_user(id@)
            } else {
                old(self).state()
            }),
            old(self).can_undo() ==> final(self).can_undo() && r is Ok && r->Ok_0 == old(self).state().user(id@) is Some,
            old(self).ready() ==> final(self).ready() && r is Ok && r->Ok_0 == old(self).state().user(id@) is Some,
    ;

    /// Deletes a user unless that is the only admin. Says whether it did.
    fn try_delete_user_unless_last_admin(&mut self, id: &str) -> (r: Result<bool, Error>)
        ensures
            r is Ok && r->Ok_0 ==> (old(self).state().user(id@) is Some && !old(self).state().is_last_admin(id@)),
            final(self).state() == (if r is Ok && r->Ok_0 {
                old(self).state().without_user(id@)
            } else {
                old(self).state()
            }),
            old(self).can_undo() ==> final(self).can_undo(),
            old(self).ready() ==> final(self).ready() && r is Ok && r->Ok_0 == (old(self).state().user(id@) is Some && !old(self).state().is_last_admin(id@)),
    ;

    /// Makes an admin a member unless that is the only admin. Says whether it did.
    fn try_demote_user_unless_last_admin(&mut self, id: &str) -> (r: Result<bool, Error>)
        ensures
            r is Ok && r->Ok_0 ==> (old(self).state().user(id@) matches Some(u) && u.role == Role::Admin && old(self).state().admins() > 1),
            final(self).state() == (if r is Ok && r->Ok_0 {
                old(self).state().setting_role(id@, Role::Member)
            } else {
                old(self).state()
            }),
            old(self).can_undo() ==> final(self).can_undo(),
            old(self).ready() ==> final(self).ready() && r is Ok && r->Ok_0 == (old(self).state().user(id@) matches Some(u) && u.role == Role::Admin && old(self).state().admins() > 1),
    ;

    /// Revokes a token that is not revoked. Says whether it did.
    fn revoke_token(&mut self, id: &str, revoked_at: &str) -> (r: Result<bool, Error>)
        ensures
            r is Ok && r->Ok_0 ==> (old(self).state().token(id@) matches Some(t) && t.revoked_at is None),
            final(self).state() == (if r is Ok && r->Ok_0 {
                old(self).state().revoking_token(id@, revoked_at@)
            } else {
                old(self).state()
            }),
            old(self).can_undo() ==> final(self).can_undo(),
            old(self).ready() ==> final(self).ready() && r is Ok && r->Ok_0 == (old(self).state().token(id@) matches Some(t) && t.revoked_at is None),
    ;

    /// Consumes a code that is not consumed. Says whether it did: of two attempts at most one does.
    fn consume_auth_code(&mut self, id: &str, consumed_at: &str) -> (r: Result<bool, Error>)
        ensures
            r is Ok && r->Ok_0 ==> (old(self).state().code(id@) matches Some(c) && c.consumed_at is None),
            final(self).state() == (if r is Ok && r->Ok_0 {
                old(self).state().consuming_code(id@, consumed_at@)
            } else {
                old(self).state()
            }),
            old(self).can_undo() ==> final(self).can_undo(),
            old(self).ready() ==> final(self).ready() && r is Ok && r->Ok_0 == (old(self).state().code(id@) matches Some(c) && c.consumed_at is None),
    ;

    /// Takes a grant back. Says whether there was one.
    fn revoke_store_grant(&mut self, store_name: &str, user_id: &str) -> (r: Result<bool, Error>)
        ensures
            r is Ok ==> final(self).state() == old(self).state().revoking_grant(store_name@, user_id@) && r->Ok_0 == (final(self).state().grants.len() != old(self).state().grants.len()),
            r is Err ==> final(self).state() == old(self).state(),
            old(self).can_undo() ==> final(self).can_undo(),
            old(self).ready() ==> final(self).ready() && r is Ok,
    ;

    /// Revokes an invite that is not revoked. Says whether it did.
    fn revoke_invite(&mut self, id: &str, revoked_at: &str) -> (r: Result<bool, Error>)
        ensures
            r is Ok && r->Ok_0 ==> (old(self).state().invite(id@) matches Some(i) && i.revoked_at is None),
            final(self).state() == (if r is Ok && r->Ok_0 {
                old(self).state().revoking_invite(id@, revoked_at@)
            } else {
                old(self).state()
            }),
            old(self).can_undo() ==> final(self).can_undo(),
            old(self).ready() ==> final(self).ready() && r is Ok && r->Ok_0 == (old(self).state().invite(id@) matches Some(i) && i.revoked_at is None),
    ;

    /// Takes one of an invite's uses, if one is left. Says whether it did.
    fn try_consume_invite_use(&mut self, id: &str) -> (r: Result<bool, Error>)
        ensures
            r is Ok && r->Ok_0 ==> (old(self).state().invite(id@) matches Some(i) && i.uses < i.max_uses),
            final(self).state() == (if r is Ok && r->Ok_0 {
                old(self).state().taking_use(id@)
            } else {
                old(self).state()
            }),
            old(self).can_undo() ==> final(self).can_undo(),
            old(self).ready() ==> final(self).ready() && r is Ok && r->Ok_0 == (old(self).state().invite(id@) matches Some(i) && i.uses < i.max_uses),
    ;

    /// Decides a request that is pending. Says whether it did.
    fn try_decide_access_request(&mut self, id: &str, state: AccessRequestState, resulting_user_id: Option<&str>, decided_at: &str) -> (r: Result<bool, Error>)
        ensures
            r is Ok && r->Ok_0 ==> (old(self).state().request(id@) matches Some(q) && q.state == AccessRequestState::Pending),
            final(self).state() == (if r is Ok && r->Ok_0 {
                old(self).state().deciding_request(id@, state, text::opt_str_view(resulting_user_id), decided_at@)
            } else {
                old(self).state()
            }),
            old(self).can_undo() ==> final(self).can_undo(),
            old(self).ready() ==> final(self).ready() && r is Ok && r->Ok_0 == (old(self).state().request(id@) matches Some(q) && q.state == AccessRequestState::Pending),
    ;

    /// Marks an approved request as collected, once. Says whether it did.
    fn mark_access_request_collected(&mut self, id: &str, collected_at: &str) -> (r: Result<bool, Error>)
        ensures
            r is Ok && r->Ok_0 ==> (old(self).state().request(id@) matches Some(q) && q.state == AccessRequestState::Approved && q.collected_at is None),
            final(self).state() == (if r is Ok && r->Ok_0 {
                old(self).state().collecting_request(id@, collected_at@)
            } else {
                old(self).state()
            }),
            old(self).can_undo() ==> final(self).can_undo(),
            old(self).ready() ==> final(self).ready() && r is Ok && r->Ok_0 == (old(self).state().request(id@) matches Some(q) && q.state == AccessRequestState::Approved && q.collected_at is None),
    ;

}

/// An in-memory store. The `poison` methods make one later call fail, to play a race that
/// was lost or a fault.
pub struct FakeAuthStore {
    users: Vec<UserRow>,
    tokens: Vec<AuthTokenRow>,
    codes: Vec<AuthCodeRow>,
    clients: Vec<OAuthClientRow>,
    grants: Vec<StoreGrantRow>,
    invites: Vec<InviteRow>,
    requests: Vec<AccessRequestRow>,
    poisoned_revokes: Vec<String>,
    poisoned_decides: Vec<String>,
    poisoned_collects: Vec<String>,
    poisoned_insert: bool,
}

/// Takes one entry equal to `id` out of the list. Says whether there was one.
fn take_poison(list: &mut Vec<String>, id: &str) -> (r: bool)
    ensures
        old(list)@.len() == 0 ==> !r,
        !r ==> final(list)@ == old(list)@,
        r ==> final(list)@.len() == old(list)@.len() - 1,
        r == text::views(old(list)@).contains(id@),
{
    let mut i: usize = 0;
    while i < list.len()
        invariant
            i <= list.len(),
            list@ == old(list)@,
            forall|j: int| 0 <= j < i ==> text::views(old(list)@)[j] != id@,
        decreases list.len() - i,
    {
        if text::str_eq(list[i].as_str(), id) {
            assert(text::views(old(list)@)[i as int] == id@);
            list.remove(i);
            return true;
        }
        i += 1;
    }
    false
}

spec fn final_requests(rs: Seq<rows::RequestView>, user: Seq<char>) -> Seq<rows::RequestView> {
    Seq::new(rs.len(), |i: int| forgetting(rs[i], user))
}

/// The requests, none of them naming the user of the given id.
fn forget_user(requests: &Vec<AccessRequestRow>, user: &str) -> (r: Vec<AccessRequestRow>)
    ensures
        lists::views_of(r@) == final_requests(lists::views_of(requests@), user@),
{
    let mut out: Vec<AccessRequestRow> = Vec::new();
    let mut i: usize = 0;
    while i < requests.len()
        invariant
            i <= requests.len(),
            out.len() == i,
            forall|j: int| 0 <= j < i ==> (#[trigger] out@[j])@ == forgetting(requests@[j]@, user@),
        decreases requests.len() - i,
    {
        let mut row = requests[i].copied();
        let named = match &row.resulting_user_id {
            Some(u) => text::str_eq(u.as_str(), user),
            None => false,
        };
        if named {
            row.resulting_user_id = None;
        }
        assert(row@ == forgetting(requests@[i as int]@, user@));
        out.push(row);
        i += 1;
    }
    assert(lists::views_of(out@) =~= final_requests(lists::views_of(requests@), user@));
    out
}

/// The tokens, with the live ones of a family revoked, and how many those were.
fn burn_family(tokens: &Vec<AuthTokenRow>, family: &str, at: &str) -> (r: (
    Vec<AuthTokenRow>,
    u64,
))
    ensures
        lists::views_of(r.0@) == Seq::new(
            tokens@.len(),
            |i: int| burnt(lists::views_of(tokens@)[i], family@, at@),
        ),
        r.1 == lists::views_of(tokens@).filter(live_in_family(family@)).len(),
{
    let ghost s = lists::views_of(tokens@);
    let ghost p = live_in_family(family@);
    let mut out: Vec<AuthTokenRow> = Vec::new();
    let mut n: u64 = 0;
    let mut i: usize = 0;
    proof {
        reveal(Seq::filter);
    }
    while i < tokens.len()
        invariant
            i <= tokens.len(),
            out.len() == i,
            n <= i,
            s == lists::views_of(tokens@),
            p == live_in_family(family@),
            n == s.take(i as int).filter(p).len(),
            forall|j: int| 0 <= j < i ==> (#[trigger] out@[j])@ == burnt(s[j], family@, at@),
        decreases tokens.len() - i,
    {
        proof {
            lists::lemma_filter_step(s, p, i as int);
        }
        let mut row = tokens[i].copied();
        let member = match &row.family_id {
            Some(f) => text::str_eq(f.as_str(), family),
            None => false,
        };
        if member && row.revoked_at.is_none() {
            row.revoked_at = Some(at.to_owned());
            n += 1;
        }
        assert(row@ =~= burnt(s[i as int], family@, at@));
        out.push(row);
        i += 1;
    }
    proof {
        assert(s.take(s.len() as int) =~= s);
        assert(lists::views_of(out@) =~= Seq::new(
            tokens@.len(),
            |i: int| burnt(lists::views_of(tokens@)[i], family@, at@),
        ));
    }
    (out, n)
}

impl FakeAuthStore {
    /// An empty store.
    pub fn new() -> (r: Self)
        ensures
            r.ready(),
            r.state() == (AuthState {
                users: Seq::empty(),
                tokens: Seq::empty(),
                codes: Seq::empty(),
                clients: Seq::empty(),
                grants: Seq::empty(),
                invites: Seq::empty(),
                requests: Seq::empty(),
            }),
    {
        let r = FakeAuthStore {
            users: Vec::new(),
            tokens: Vec::new(),
            codes: Vec::new(),
            clients: Vec::new(),
            grants: Vec::new(),
            invites: Vec::new(),
            requests: Vec::new(),
            poisoned_revokes: Vec::new(),
            poisoned_decides: Vec::new(),
            poisoned_collects: Vec::new(),
            poisoned_insert: false,
        };
        assert(r.state().users =~= Seq::empty());
        assert(r.state().tokens =~= Seq::empty());
        assert(r.state().codes =~= Seq::empty());
        assert(r.state().clients =~= Seq::empty());
        assert(r.state().grants =~= Seq::empty());
        assert(r.state().invites =~= Seq::empty());
        assert(r.state().requests =~= Seq::empty());
        r
    }

    /// The ids whose next revocation is lost.
    pub closed spec fn lost_revokes(&self) -> Seq<Seq<char>> {
        text::views(self.poisoned_revokes@)
    }

    /// The ids whose next decision is lost.
    pub closed spec fn lost_decides(&self) -> Seq<Seq<char>> {
        text::views(self.poisoned_decides@)
    }

    /// The ids whose next collection is lost.
    pub closed spec fn lost_collects(&self) -> Seq<Seq<char>> {
        text::views(self.poisoned_collects@)
    }

    /// Whether the next insertion of a token fails.
    pub closed spec fn failing_insert(&self) -> bool {
        self.poisoned_insert
    }

    /// Makes the next revocation of the token report a lost race.
    pub fn poison_next_revoke(&mut self, id: &str)
        ensures
            final(self).state() == old(self).state(),
            final(self).lost_revokes() == old(self).lost_revokes().push(id@),
    {
        self.poisoned_revokes.push(id.to_owned());
        assert(self.lost_revokes() =~= old(self).lost_revokes().push(id@));
    }

    /// Makes the next decision of the request report a lost race.
    pub fn poison_next_decide(&mut self, id: &str)
        ensures
            final(self).state() == old(self).state(),
            final(self).lost_decides() == old(self).lost_decides().push(id@),
    {
        self.poisoned_decides.push(id.to_owned());
        assert(self.lost_decides() =~= old(self).lost_decides().push(id@));
    }

    /// Makes the next collection of the request report a lost race.
    pub fn poison_next_collect(&mut self, id: &str)
        ensures
            final(self).state() == old(self).state(),
            final(self).lost_collects() == old(self).lost_collects().push(id@),
    {
        self.poisoned_collects.push(id.to_owned());
        assert(self.lost_collects() =~= old(self).lost_collects().push(id@));
    }

    /// Makes the next insertion of a token fail.
    pub fn poison_next_insert_token(&mut self)
        ensures
            final(self).state() == old(self).state(),
            final(self).failing_insert(),
    {
        self.poisoned_insert = true;
    }

    /// How many admins there are.
    fn count_admins(&self) -> (r: usize)
        ensures
            r == self.state().admins(),
    {
        let ghost s = self.state().users;
        let ghost p = is_admin();
        let mut n: usize = 0;
        let mut i: usize = 0;
        proof {
            reveal(Seq::filter);
        }
        while i < self.users.len()
            invariant
                i <= self.users.len(),
                n <= i,
                s == lists::views_of(self.users@),
                p == is_admin(),
                n == s.take(i as int).filter(p).len(),
            decreases self.users.len() - i,
        {
            proof {
                lists::lemma_filter_step(s, p, i as int);
            }
            if self.users[i].role == Role::Admin {
                n += 1;
            }
            i += 1;
        }
        assert(s.take(s.len() as int) =~= s);
        n
    }

    /// Whether some user of the id is an admin.
    fn admin_with(&self, id: &str) -> (r: bool)
        ensures
            r == self.state().has_admin(id@),
    {
        let mut i: usize = 0;
        while i < self.users.len()
            invariant
                i <= self.users.len(),
                forall|j: int|
                    0 <= j < i ==> !((#[trigger] self.state().users[j]).id == id@
                        && self.state().users[j].role == Role::Admin),
            decreases self.users.len() - i,
        {
            assert(self.state().users[i as int] == self.users@[i as int]@);
            if text::str_eq(self.users[i].id.as_str(), id) && self.users[i].role == Role::Admin {
                return true;
            }
            i += 1;
        }
        false
    }

    /// Deletes a user with everything that hangs on it. Says whether there was one.
    fn delete_user_and_cascade(&mut self, id: &str) -> (r: bool)
        ensures
            r == (old(self).state().user(id@) is Some),
            final(self).state() == old(self).state().without_user(id@),
            old(self).ready() ==> final(self).ready(),
    {
        if tables::find_user(&self.users, id).is_none() {
            return false;
        }
        self.users = tables::users_other_than(&self.users, id);
        self.tokens = tables::tokens_not_of(&self.tokens, id);
        self.grants = tables::grants_not_to(&self.grants, id);
        let ghost before = lists::views_of(self.requests@);
        let kept = forget_user(&self.requests, id);
        self.requests = kept;
        proof {
            assert(final_requests(before, id@) =~= lists::views_of(self.requests@));
            assert(self.state() =~= old(self).state().without_user(id@));
        }
        true
    }
}

impl AuthStore for FakeAuthStore {
    closed spec fn state(&self) -> AuthState {
        AuthState {
            users: lists::views_of(self.users@),
            tokens: lists::views_of(self.tokens@),
            codes: lists::views_of(self.codes@),
            clients: lists::views_of(self.clients@),
            grants: lists::views_of(self.grants@),
            invites: lists::views_of(self.invites@),
            requests: lists::views_of(self.requests@),
        }
    }

    open spec fn can_undo(&self) -> bool {
        true
    }

    closed spec fn ready(&self) -> bool {
        &&& self.poisoned_revokes@.len() == 0
        &&& self.poisoned_decides@.len() == 0
        &&& self.poisoned_collects@.len() == 0
        &&& !self.poisoned_insert
    }

    fn create_user(&mut self, user: &UserRow) -> (r: Result<(), Error>) {
        if tables::find_user_named(&self.users, user.name.as_str()).is_some() {
            return Err(
                Error::invalid_request(
                    text::concat3("user '", user.name.as_str(), "' already exists"),
                ),
            );
        }
        let row = user.copied();
        proof {
            lists::lemma_views_push(self.users@, row);
        }
        self.users.push(row);
        assert(self.state() =~= old(self).state().adding_user(user@));
        Ok(())
    }

    fn update_user_role(&mut self, id: &str, role: Role) -> (r: Result<(), Error>) {
        match tables::find_user(&self.users, id) {
            Some(i) => {
                let ghost before = self.users@;
                self.users[i].role = role;
                proof {
                    lists::lemma_views_update(before, i as int, self.users@[i as int]);
                    assert(self.users@ =~= before.update(i as int, self.users@[i as int]));
                    assert(self.state() =~= old(self).state().setting_role(id@, role));
                }
                Ok(())
            },
            None => Err(Error::invalid_request(text::concat3("user '", id, "' not found"))),
        }
    }

    fn revoke_token_family(&mut self, family_id: &str, revoked_at: &str) -> (r: Result<u64, Error>) {
        let (tokens, n) = burn_family(&self.tokens, family_id, revoked_at);
        self.tokens = tokens;
        assert(self.state() =~= old(self).state().burning_family(family_id@, revoked_at@));
        Ok(n)
    }

    fn get_user(&self, id: &str) -> (r: Result<Option<UserRow>, Error>) {
        match tables::find_user(&self.users, id) {
            Some(i) => Ok(Some(self.users[i].copied())),
            None => Ok(None),
        }
    }

    fn get_user_by_name(&self, name: &str) -> (r: Result<Option<UserRow>, Error>) {
        match tables::find_user_named(&self.users, name) {
            Some(i) => Ok(Some(self.users[i].copied())),
            None => Ok(None),
        }
    }

    fn list_users(&self) -> (r: Result<Vec<UserRow>, Error>) {
        Ok(tables::copy_users(&self.users))
    }

    fn count_users(&self) -> (r: Result<u64, Error>) {
        Ok(self.users.len() as u64)
    }

    fn find_token_by_hash(&self, secret_hash: &str) -> (r: Result<Option<AuthTokenRow>, Error>) {
        match tables::find_token_hash(&self.tokens, secret_hash) {
            Some(i) => Ok(Some(self.tokens[i].copied())),
            None => Ok(None),
        }
    }

    fn find_token(&self, id: &str) -> (r: Result<Option<AuthTokenRow>, Error>) {
        match tables::find_token_id(&self.tokens, id) {
            Some(i) => Ok(Some(self.tokens[i].copied())),
            None => Ok(None),
        }
    }

    fn list_tokens_for_user(&self, user_id: &str) -> (r: Result<Vec<AuthTokenRow>, Error>) {
        Ok(tables::tokens_of(&self.tokens, user_id))
    }

    fn find_auth_code_by_hash(&self, code_hash: &str) -> (r: Result<Option<AuthCodeRow>, Error>) {
        match tables::find_code_hash(&self.codes, code_hash) {
            Some(i) => Ok(Some(self.codes[i].copied())),
            None => Ok(None),
        }
    }

    fn find_oauth_client(&self, id: &str) -> (r: Result<Option<OAuthClientRow>, Error>) {
        match tables::find_client_id(&self.clients, id) {
            Some(i) => Ok(Some(self.clients[i].copied())),
            None => Ok(None),
        }
    }

    fn list_grants_for_user(&self, user_id: &str) -> (r: Result<Vec<StoreGrantRow>, Error>) {
        Ok(tables::grants_to(&self.grants, user_id))
    }

    fn list_grants_for_store(&self, store_name: &str) -> (r: Result<Vec<StoreGrantRow>, Error>) {
        Ok(tables::grants_on(&self.grants, store_name))
    }

    fn find_invite_by_hash(&self, token_hash: &str) -> (r: Result<Option<InviteRow>, Error>) {
        match tables::find_invite_hash(&self.invites, token_hash) {
            Some(i) => Ok(Some(self.invites[i].copied())),
            None => Ok(None),
        }
    }

    fn find_invite(&self, id: &str) -> (r: Result<Option<InviteRow>, Error>) {
        match tables::find_invite_id(&self.invites, id) {
            Some(i) => Ok(Some(self.invites[i].copied())),
            None => Ok(None),
        }
    }

    fn list_invites(&self) -> (r: Result<Vec<InviteRow>, Error>) {
        Ok(tables::copy_invites(&self.invites))
    }

    fn find_access_request(&self, id: &str) -> (r: Result<Option<AccessRequestRow>, Error>) {
        match tables::find_request_id(&self.requests, id) {
            Some(i) => Ok(Some(self.requests[i].copied())),
            None => Ok(None),
        }
    }

    fn list_access_requests_for_invite(&self, invite_id: &str) -> (r: Result<Vec<AccessRequestRow>, Error>) {
        Ok(tables::requests_through(&self.requests, invite_id))
    }

    fn list_access_requests(&self) -> (r: Result<Vec<AccessRequestRow>, Error>) {
        Ok(tables::copy_requests(&self.requests))
    }

    fn insert_token(&mut self, token: &AuthTokenRow) -> (r: Result<(), Error>)
        ensures
            r is Err <==> old(self).failing_insert(),
            !final(self).failing_insert(),
    {
        if self.poisoned_insert {
            self.poisoned_insert = false;
            return Err(
                Error::Internal {
                    message: "poisoned insert_token: simulated store failure".to_owned(),
                    correlation_id: "fake_auth_store_poison_insert_token".to_owned(),
                },
            );
        }
        let row = token.copied();
        proof {
            lists::lemma_views_push(self.tokens@, row);
        }
        self.tokens.push(row);
        assert(self.state() =~= old(self).state().adding_token(token@));
        Ok(())
    }

    fn create_auth_code(&mut self, code: &AuthCodeRow) -> (r: Result<(), Error>) {
        let row = code.copied();
        proof {
            lists::lemma_views_push(self.codes@, row);
        }
        self.codes.push(row);
        assert(self.state() =~= old(self).state().adding_code(code@));
        Ok(())
    }

    fn create_oauth_client(&mut self, client: &OAuthClientRow) -> (r: Result<(), Error>) {
        let row = client.copied();
        proof {
            lists::lemma_views_push(self.clients@, row);
        }
        self.clients.push(row);
        assert(self.state() =~= old(self).state().adding_client(client@));
        Ok(())
    }

    fn create_invite(&mut self, invite: &InviteRow) -> (r: Result<(), Error>) {
        let row = invite.copied();
        proof {
            lists::lemma_views_push(self.invites@, row);
        }
        self.invites.push(row);
        assert(self.state() =~= old(self).state().adding_invite(invite@));
        Ok(())
    }

    fn create_access_request(&mut self, req: &AccessRequestRow) -> (r: Result<(), Error>) {
        let row = req.copied();
        proof {
            lists::lemma_views_push(self.requests@, row);
        }
        self.requests.push(row);
        assert(self.state() =~= old(self).state().adding_request(req@));
        Ok(())
    }

    fn mark_token_used(&mut self, id: &str, used_at: &str) -> (r: Result<(), Error>) {
        match tables::find_token_id(&self.tokens, id) {
            Some(i) => {
                let ghost before = self.tokens@;
                self.tokens[i].last_used_at = Some(used_at.to_owned());
                proof {
                    lists::lemma_views_update(before, i as int, self.tokens@[i as int]);
                    assert(self.tokens@ =~= before.update(i as int, self.tokens@[i as int]));
                    assert(self.state() =~= old(self).state().using_token(id@, used_at@));
                }
            },
            None => {
                assert(self.state() =~= old(self).state().using_token(id@, used_at@));
            },
        }
        Ok(())
    }

    fn grant_store(&mut self, grant: &StoreGrantRow) -> (r: Result<(), Error>) {
        let mut rest = tables::grants_other_than(
            &self.grants,
            grant.store_name.as_str(),
            grant.user_id.as_str(),
        );
        let row = grant.copied();
        proof {
            lists::lemma_views_push(rest@, row);
        }
        rest.push(row);
        self.grants = rest;
        assert(self.state() =~= old(self).state().granting(grant@));
        Ok(())
    }

    fn release_invite_use(&mut self, id: &str) -> (r: Result<(), Error>) {
        match tables::find_invite_id(&self.invites, id) {
            Some(i) => {
                let left: u32 = self.invites[i].uses.saturating_sub(1);
                let ghost before = self.invites@;
                self.invites[i].uses = left;
                proof {
                    lists::lemma_views_update(before, i as int, self.invites@[i as int]);
                    assert(self.invites@ =~= before.update(i as int, self.invites@[i as int]));
                    assert(self.state() =~= old(self).state().returning_use(id@));
                }
            },
            None => {
                assert(self.state() =~= old(self).state().returning_use(id@));
            },
        }
        Ok(())
    }

    fn delete_user(&mut self, id: &str) -> (r: Result<bool, Error>) {
        Ok(self.delete_user_and_cascade(id))
    }

    fn try_delete_user_unless_last_admin(&mut self, id: &str) -> (r: Result<bool, Error>) {
        if self.admin_with(id) && self.count_admins() <= 1 {
            return Ok(false);
        }
        Ok(self.delete_user_and_cascade(id))
    }

    fn try_demote_user_unless_last_admin(&mut self, id: &str) -> (r: Result<bool, Error>) {
        let admins: usize = self.count_admins();
        match tables::find_user(&self.users, id) {
            Some(i) => {
                if !(self.users[i].role == Role::Admin && admins > 1) {
                    return Ok(false);
                }
                let ghost before = self.users@;
                self.users[i].role = Role::Member;
                proof {
                    lists::lemma_views_update(before, i as int, self.users@[i as int]);
                    assert(self.users@ =~= before.update(i as int, self.users@[i as int]));
                    assert(self.state() =~= old(self).state().setting_role(id@, Role::Member));
                }
                Ok(true)
            },
            None => Ok(false),
        }
    }

    fn revoke_store_grant(&mut self, store_name: &str, user_id: &str) -> (r: Result<bool, Error>) {
        let before: usize = self.grants.len();
        let rest = tables::grants_other_than(&self.grants, store_name, user_id);
        self.grants = rest;
        assert(self.state() =~= old(self).state().revoking_grant(store_name@, user_id@));
        assert(self.state().grants.len() == self.grants.len());
        Ok(self.grants.len() != before)
    }

    fn revoke_token(&mut self, id: &str, revoked_at: &str) -> (r: Result<bool, Error>)
        ensures
            r is Ok,
            old(self).lost_revokes().contains(id@) ==> !r->Ok_0,
    {
        if take_poison(&mut self.poisoned_revokes, id) {
            return Ok(false);
        }
        match tables::find_token_id(&self.tokens, id) {
            Some(i) => {
                if !(self.tokens[i].revoked_at.is_none()) {
                    return Ok(false);
                }
                let ghost before = self.tokens@;
                self.tokens[i].revoked_at = Some(revoked_at.to_owned());
                proof {
                    lists::lemma_views_update(before, i as int, self.tokens@[i as int]);
                    assert(self.tokens@ =~= before.update(i as int, self.tokens@[i as int]));
                    assert(self.state() =~= old(self).state().revoking_token(id@, revoked_at@));
                }
                Ok(true)
            },
            None => Ok(false),
        }
    }

    fn consume_auth_code(&mut self, id: &str, consumed_at: &str) -> (r: Result<bool, Error>) {
        match tables::find_code_id(&self.codes, id) {
            Some(i) => {
                if !(self.codes[i].consumed_at.is_none()) {
                    return Ok(false);
                }
                let ghost before = self.codes@;
                self.codes[i].consumed_at = Some(consumed_at.to_owned());
                proof {
                    lists::lemma_views_update(before, i as int, self.codes@[i as int]);
                    assert(self.codes@ =~= before.update(i as int, self.codes@[i as int]));
                    assert(self.state() =~= old(self).state().consuming_code(id@, consumed_at@));
                }
                Ok(true)
            },
            None => Ok(false),
        }
    }

    fn revoke_invite(&mut self, id: &str, revoked_at: &str) -> (r: Result<bool, Error>) {
        match tables::find_invite_id(&self.invites, id) {
            Some(i) => {
                if !(self.invites[i].revoked_at.is_none()) {
                    return Ok(false);
                }
                let ghost before = self.invites@;
                self.invites[i].revoked_at = Some(revoked_at.to_owned());
                proof {
                    lists::lemma_views_update(before, i as int, self.invites@[i as int]);
                    assert(self.invites@ =~= before.update(i as int, self.invites@[i as int]));
                    assert(self.state() =~= old(self).state().revoking_invite(id@, revoked_at@));
                }
                Ok(true)
            },
            None => Ok(false),
        }
    }

    fn try_consume_invite_use(&mut self, id: &str) -> (r: Result<bool, Error>) {
        match tables::find_invite_id(&self.invites, id) {
            Some(i) => {
                if !(self.invites[i].uses < self.invites[i].max_uses) {
                    return Ok(false);
                }
                let ghost before = self.invites@;
                let taken: u32 = self.invites[i].uses + 1;
                self.invites[i].uses = taken;
                proof {
                    lists::lemma_views_update(before, i as int, self.invites@[i as int]);
                    assert(self.invites@ =~= before.update(i as int, self.invites@[i as int]));
                    assert(self.state() =~= old(self).state().taking_use(id@));
                }
                Ok(true)
            },
            None => Ok(false),
        }
    }

    fn try_decide_access_request(&mut self, id: &str, state: AccessRequestState, resulting_user_id: Option<&str>, decided_at: &str) -> (r: Result<bool, Error>)
        ensures
            r is Ok,
            old(self).lost_decides().contains(id@) ==> !r->Ok_0,
    {
        if take_poison(&mut self.poisoned_decides, id) {
            return Ok(false);
        }
        match tables::find_request_id(&self.requests, id) {
            Some(i) => {
                if !(self.requests[i].state == AccessRequestState::Pending) {
                    return Ok(false);
                }
                let ghost before = self.requests@;
                self.requests[i].state = state;
                self.requests[i].resulting_user_id = text::owned_opt(resulting_user_id);
                self.requests[i].decided_at = Some(decided_at.to_owned());
                proof {
                    lists::lemma_views_update(before, i as int, self.requests@[i as int]);
                    assert(self.requests@ =~= before.update(i as int, self.requests@[i as int]));
                    assert(self.state() =~= old(self).state().deciding_request(
                        id@,
                        state,
                        text::opt_str_view(resulting_user_id),
                        decided_at@,
                    ));
                }
                Ok(true)
            },
            None => Ok(false),
        }
    }

    fn mark_access_request_collected(&mut self, id: &str, collected_at: &str) -> (r: Result<bool, Error>)
        ensures
            r is Ok,
            old(self).lost_collects().contains(id@) ==> !r->Ok_0,
    {
        if take_poison(&mut self.poisoned_collects, id) {
            return Ok(false);
        }
        match tables::find_request_id(&self.requests, id) {
            Some(i) => {
                if !(self.requests[i].state == AccessRequestState::Approved && self.requests[i].collected_at.is_none()) {
                    return Ok(false);
                }
                let ghost before = self.requests@;
                self.requests[i].collected_at = Some(collected_at.to_owned());
                proof {
                    lists::lemma_views_update(before, i as int, self.requests@[i as int]);
                    assert(self.requests@ =~= before.update(i as int, self.requests@[i as int]));
                    assert(self.state() =~= old(self).state().collecting_request(id@, collected_at@));
                }
                Ok(true)
            },
            None => Ok(false),
        }
    }

}

} // verus!
