//! The auth policy over a store.
//!
//! Every operation comes in two forms: one that takes the moment it happens at, and one
//! that reads the clock and calls the first.

use super::principal;
use super::principal::{Principal, Role, StoreAccess};
use super::rows;
use super::rows::{AuthCodeRow, AuthTokenRow, InviteRow, TokenKind, UserRow};
use super::store;
use super::store::AuthStore;
use super::tables;
use super::token;
use super::token::{ACCESS_TOKEN_TTL_SECS, REFRESH_TOKEN_TTL_SECS};
use crate::calendar;
use crate::clock::Moment;
use crate::error::{Error, ErrorView};
use crate::ids;
use crate::lists;
use crate::text;
use vstd::prelude::*;

verus! {

/// A new token with its secret, which is shown once and not kept.
#[derive(Debug, Clone)]
pub struct IssuedToken {
    pub row: AuthTokenRow,
    pub secret: String,
}

/// A new invite with its secret.
#[derive(Debug, Clone)]
pub struct IssuedInvite {
    pub row: InviteRow,
    pub secret: String,
}

/// A new authorization code with its secret.
#[derive(Debug, Clone)]
pub struct IssuedAuthCode {
    pub row: AuthCodeRow,
    pub secret: String,
}

/// What redeeming an invite led to.
#[derive(Debug, Clone)]
pub enum RedeemOutcome {
    /// An open invite: the user, the stores granted, and an API key.
    Open { user: UserRow, grants: Vec<String>, credential: IssuedToken },
    /// A closed invite: a request was filed, to be polled with its secret.
    Closed { request_id: String, request_secret: String },
}

/// What polling a request tells.
#[derive(Debug, Clone, PartialEq, Eq)]
pub enum PollOutcome {
    Pending,
    /// The credential, handed out on this poll only.
    Approved { credential: String },
    Denied,
    /// The credential was handed out before.
    AlreadyCollected,
}

/// The auth policy.
pub struct AuthService<S: AuthStore> {
    pub store: S,
}

/// The error of a request without valid credentials.
pub open spec fn refused(message: Seq<char>) -> ErrorView {
    ErrorView::Unauthorized { message }
}

/// Whether an instant, if there is one, has passed.
pub open spec fn has_passed(expires_at: Option<Seq<char>>, now: Seq<char>) -> bool {
    expires_at matches Some(e) && text::text_lt(e, now)
}

/// Whether an instant, if there is one, has passed.
pub(crate) fn passed(expires_at: &Option<String>, at: &Moment) -> (r: bool)
    ensures
        r == has_passed(text::opt_view(*expires_at), at.text()),
{
    match expires_at {
        Some(e) => {
            let now = calendar::format_unix(at.secs);
            token::is_expired_at(e.as_str(), now.as_str())
        },
        None => false,
    }
}

// ---------------------------------------------------------------------------
// Users and tokens
// ---------------------------------------------------------------------------
/// A new user of the given name and role.
pub open spec fn is_new_user(u: rows::UserView, name: Seq<char>, role: Role, stamp: Seq<char>) -> bool {
    u.id.len() == 26 && u.name == name && u.role == role && u.created_at == stamp
}

/// A new token for a user, and the secret that it is kept as the digest of.
pub open spec fn is_issued(
    t: IssuedToken,
    user: Seq<char>,
    kind: TokenKind,
    expires_at: Option<Seq<char>>,
    stamp: Seq<char>,
) -> bool {
    &&& t.row@.id.len() == 26
    &&& t.row@.user_id == user
    &&& t.row@.kind == kind
    &&& token::is_minted(t.secret@, t.row@.secret_hash)
    &&& t.row@.expires_at == expires_at
    &&& t.row@.last_used_at is None
    &&& t.row@.revoked_at is None
    &&& t.row@.created_at == stamp
}

/// Why a bearer secret does not authenticate, if it does not.
pub open spec fn bearer_refusal(st: store::AuthState, hash: Seq<char>, now: Seq<char>) -> Option<
    Seq<char>,
> {
    match st.token_with(hash) {
        None => Some("invalid bearer token"@),
        Some(t) => if t.revoked_at is Some {
            Some("token has been revoked"@)
        } else if has_passed(t.expires_at, now) {
            Some("token has expired"@)
        } else if st.user(t.user_id) is None {
            Some("token's user no longer exists"@)
        } else {
            None
        },
    }
}

/// The names of the stores of grants.
pub open spec fn granted_names(gs: Seq<rows::GrantView>) -> Seq<Seq<char>> {
    Seq::new(gs.len(), |i: int| gs[i].store_name)
}

/// What a user may read, by role and grants.
pub open spec fn access_of(st: store::AuthState, u: rows::UserView) -> principal::AccessView {
    if u.role == Role::Admin {
        principal::AccessView::All
    } else {
        principal::AccessView::Granted(
            granted_names(st.grants.filter(tables::grant_to(u.id))).to_set(),
        )
    }
}

/// The principal of a user.
pub open spec fn principal_of(st: store::AuthState, u: rows::UserView) -> principal::PrincipalView {
    principal::PrincipalView {
        user_id: u.id,
        name: u.name,
        role: u.role,
        access: access_of(st, u),
    }
}

/// The store after a token has authenticated: the use of an API key is noted.
pub open spec fn after_use(st: store::AuthState, t: rows::TokenView, stamp: Seq<char>) -> store::AuthState {
    if t.kind == TokenKind::ApiKey {
        st.using_token(t.id, stamp)
    } else {
        st
    }
}

/// The message for a refresh token that was used before.
pub open spec fn reuse_message() -> Seq<char> {
    "refresh token reuse detected; session revoked"@
}

/// Why a refresh token is not rotated, if it is not, apart from its reuse.
pub open spec fn refresh_refusal(st: store::AuthState, hash: Seq<char>, now: Seq<char>) -> Option<
    Seq<char>,
> {
    match st.token_with(hash) {
        None => Some("invalid refresh token"@),
        Some(t) => if t.kind != TokenKind::Refresh {
            Some("not a refresh token"@)
        } else if t.revoked_at is None && has_passed(t.expires_at, now) {
            Some("refresh token has expired"@)
        } else {
            None
        },
    }
}

/// The store after a refresh token was presented again: its whole family is revoked.
pub open spec fn after_reuse(st: store::AuthState, t: rows::TokenView, stamp: Seq<char>) -> store::AuthState {
    match t.family_id {
        Some(f) => st.burning_family(f, stamp),
        None => st,
    }
}

/// Whether the token of the id is there and not revoked.
pub open spec fn is_live(st: store::AuthState, id: Seq<char>) -> bool {
    st.token(id) matches Some(t) && t.revoked_at is None
}

/// What creating a user does, from the store before it to the store after it.
pub open spec fn user_created(
    st: store::AuthState,
    ready: bool,
    name: Seq<char>,
    role: Role,
    stamp: Seq<char>,
    r: Result<UserRow, Error>,
    after: store::AuthState,
) -> bool {
    &&& r matches Ok(u) ==> st.user_named(name) is None && is_new_user(u@, name, role, stamp)
        && after == st.adding_user(u@)
    &&& r is Err ==> after == st
    &&& ready ==> (r is Err <==> st.user_named(name) is Some)
    &&& ready && r is Err ==> r->Err_0@ == store::name_taken(name)
}

/// What issuing a token does, from the store before it to the store after it. Only a refresh
/// token has a family; it is the first of a new one.
pub open spec fn token_issued(
    st: store::AuthState,
    ready: bool,
    user: Seq<char>,
    kind: TokenKind,
    lifetime: Option<i64>,
    at: Moment,
    r: Result<IssuedToken, Error>,
    after: store::AuthState,
) -> bool {
    &&& r matches Ok(t) ==> {
        &&& is_issued(
            t,
            user,
            kind,
            match lifetime {
                Some(secs) => Some(at.after(secs)),
                None => None,
            },
            at.stamp@,
        )
        &&& t.row@.family_id is Some <==> kind == TokenKind::Refresh
        &&& t.row@.family_id matches Some(f) ==> f.len() == 26
        &&& t.row@.rotated_from is None
        &&& after == st.adding_token(t.row@)
    }
    &&& r is Err ==> after == st
    &&& ready ==> r is Ok
}

/// What authenticating a bearer secret does, from the store before it to the store after it.
pub open spec fn authenticated(
    st: store::AuthState,
    ready: bool,
    hash: Seq<char>,
    at: Moment,
    r: Result<Principal, Error>,
    after: store::AuthState,
) -> bool {
    let refusal = bearer_refusal(st, hash, at.text());
    let t = st.token_with(hash)->0;
    &&& r matches Ok(p) ==> refusal is None && p@ == principal_of(st, st.user(t.user_id)->0)
        && after == after_use(st, t, at.stamp@)
    &&& refusal is Some ==> r is Err && after == st
    &&& r is Err ==> after == st || after == after_use(st, t, at.stamp@)
    &&& ready ==> (r is Ok <==> refusal is None)
    &&& ready && refusal is Some ==> r->Err_0@ == refused(refusal->0)
}

/// What rotating a refresh token does, from the store before it to the store after it. The
/// token is revoked, and a refresh token of its family and an access token take its place. One
/// that was used before revokes its family.
pub open spec fn rotated(
    st: store::AuthState,
    ready: bool,
    hash: Seq<char>,
    at: Moment,
    r: Result<(IssuedToken, IssuedToken), Error>,
    after: store::AuthState,
) -> bool {
    let refusal = refresh_refusal(st, hash, at.text());
    let t = st.token_with(hash)->0;
    &&& r is Ok ==> refusal is None && t.revoked_at is None && is_live(st, t.id)
    &&& r matches Ok((access, refresh)) ==> {
        &&& is_issued(
            refresh,
            t.user_id,
            TokenKind::Refresh,
            Some(at.after(2592000)),
            at.stamp@,
        )
        &&& refresh.row@.rotated_from == Some(t.id)
        &&& refresh.row@.family_id is Some
        &&& t.family_id is Some ==> refresh.row@.family_id == t.family_id
        &&& is_issued(access, t.user_id, TokenKind::Access, Some(at.after(3600)), at.stamp@)
        &&& access.row@.rotated_from is None && access.row@.family_id is None
        &&& after == st.revoking_token(t.id, at.stamp@).adding_token(refresh.row@).adding_token(
            access.row@,
        )
    }
    &&& refusal is Some ==> r is Err && after == st
    &&& ready && refusal is Some ==> r->Err_0@ == refused(refusal->0)
    &&& ready && refusal is None ==> (r is Ok <==> t.revoked_at is None && is_live(st, t.id))
    &&& ready && refusal is None && r is Err ==> r->Err_0@ == refused(reuse_message()) && after
        == after_reuse(st, t, at.stamp@)
    &&& r is Err && t.revoked_at is Some ==> after == st || after == after_reuse(st, t, at.stamp@)
    &&& r is Err && t.revoked_at is None ==> partly_rotated(st, t, at, after)
}

/// What a failed rotation of a live refresh token may leave behind. No token takes its place
/// before it is revoked.
pub open spec fn partly_rotated(
    st: store::AuthState,
    t: rows::TokenView,
    at: Moment,
    after: store::AuthState,
) -> bool {
    let revoked = st.revoking_token(t.id, at.stamp@);
    ||| after == st
    ||| after == after_reuse(st, t, at.stamp@)
    ||| after == revoked
    ||| exists|new: IssuedToken|
        is_issued(new, t.user_id, TokenKind::Refresh, Some(at.after(2592000)), at.stamp@)
            && new.row@.rotated_from == Some(t.id) && after == #[trigger] revoked.adding_token(
            new.row@,
        )
}

/// What revoking by a secret's digest returns and leaves behind. An unknown secret revokes
/// nothing. A refresh token is revoked with its family; whether anything was revoked is
/// whether the family had a live token. Any other token is revoked if it is live.
pub open spec fn secret_revoked(
    st: store::AuthState,
    ready: bool,
    hash: Seq<char>,
    stamp: Seq<char>,
    r: Result<bool, Error>,
    after: store::AuthState,
) -> bool {
    &&& r matches Ok(revoked) ==> match st.token_with(hash) {
        None => !revoked && after == st,
        Some(t) => if t.kind == TokenKind::Refresh && t.family_id is Some {
            &&& after == st.burning_family(t.family_id->0, stamp)
            &&& revoked == (st.tokens.filter(store::live_in_family(t.family_id->0)).len() > 0)
        } else {
            &&& after == (if revoked {
                st.revoking_token(t.id, stamp)
            } else {
                st
            })
            &&& revoked ==> is_live(st, t.id)
            &&& ready ==> revoked == is_live(st, t.id)
        },
    }
    &&& r is Err ==> after == st
    &&& ready ==> r is Ok
}

impl<S: AuthStore> AuthService<S> {
    /// The policy over a store.
    pub fn new(store: S) -> (r: Self)
        ensures
            r.store == store,
    {
        AuthService { store }
    }

    /// The content of the store.
    pub open spec fn state(&self) -> store::AuthState {
        self.store.state()
    }

    /// Whether the store answers every call, and no other writer interferes.
    pub open spec fn ready(&self) -> bool {
        self.store.ready()
    }

    /// Whether what was added to the store can be taken back.
    pub open spec fn can_undo(&self) -> bool {
        self.store.can_undo()
    }

    /// Creates a user of a new name.
    pub fn create_user_at(&mut self, name: &str, role: Role, at: &Moment) -> (r: Result<
        UserRow,
        Error,
    >)
        ensures
            user_created(
                old(self).state(),
                old(self).ready(),
                name@,
                role,
                at.stamp@,
                r,
                final(self).state(),
            ),
            old(self).can_undo() ==> final(self).can_undo(),
            old(self).ready() ==> final(self).ready(),
    {
        match self.store.get_user_by_name(name) {
            Err(e) => return Err(e),
            Ok(Some(_)) => {
                return Err(
                    Error::invalid_request(text::concat3("user '", name, "' already exists")),
                );
            },
            Ok(None) => {},
        }
        let user = UserRow {
            id: ids::new_ulid(),
            name: name.to_owned(),
            role,
            created_at: at.stamp.clone(),
        };
        match self.store.create_user(&user) {
            Ok(()) => Ok(user),
            Err(e) => Err(e),
        }
    }

    /// Creates a user of a new name, now.
    pub fn create_user(&mut self, name: &str, role: Role) -> (r: Result<UserRow, Error>)
        ensures
            exists|at: Moment|
                at.well_formed() && #[trigger] user_created(
                    old(self).state(),
                    old(self).ready(),
                    name@,
                    role,
                    at.stamp@,
                    r,
                    final(self).state(),
                ),
            old(self).can_undo() ==> final(self).can_undo(),
            old(self).ready() ==> final(self).ready(),
    {
        let at = Moment::now();
        self.create_user_at(name, role, &at)
    }

    /// Makes a token for a user, and keeps the digest of its secret.
    fn issue_token(
        &mut self,
        user_id: &str,
        kind: TokenKind,
        expires_at: Option<String>,
        family_id: Option<String>,
        rotated_from: Option<String>,
        at: &Moment,
    ) -> (r: Result<IssuedToken, Error>)
        ensures
            r is Ok ==> is_issued(
                r->Ok_0,
                user_id@,
                kind,
                text::opt_view(expires_at),
                at.stamp@,
            ) && r->Ok_0.row@.family_id == text::opt_view(family_id)
                && r->Ok_0.row@.rotated_from == text::opt_view(rotated_from)
                && final(self).state() == old(self).state().adding_token(r->Ok_0.row@),
            r is Err ==> final(self).state() == old(self).state(),
            old(self).can_undo() ==> final(self).can_undo(),
            old(self).ready() ==> final(self).ready() && r is Ok,
    {
        let minted = token::mint_secret();
        let row = AuthTokenRow {
            id: ids::new_ulid(),
            user_id: user_id.to_owned(),
            kind,
            secret_hash: minted.hash,
            expires_at,
            last_used_at: None,
            revoked_at: None,
            created_at: at.stamp.clone(),
            family_id,
            rotated_from,
        };
        match self.store.insert_token(&row) {
            Ok(()) => Ok(IssuedToken { row, secret: minted.secret }),
            Err(e) => Err(e),
        }
    }

    /// Makes an API key, which does not expire.
    pub fn issue_api_key_at(&mut self, user_id: &str, at: &Moment) -> (r: Result<IssuedToken, Error>)
        ensures
            token_issued(
                old(self).state(),
                old(self).ready(),
                user_id@,
                TokenKind::ApiKey,
                None,
                *at,
                r,
                final(self).state(),
            ),
            old(self).can_undo() ==> final(self).can_undo(),
            old(self).ready() ==> final(self).ready(),
    {
        self.issue_token(user_id, TokenKind::ApiKey, None, None, None, at)
    }

    /// Makes an access token of one hour.
    pub fn issue_access_token_at(&mut self, user_id: &str, at: &Moment) -> (r: Result<
        IssuedToken,
        Error,
    >)
        ensures
            token_issued(
                old(self).state(),
                old(self).ready(),
                user_id@,
                TokenKind::Access,
                Some(3600),
                *at,
                r,
                final(self).state(),
            ),
            old(self).can_undo() ==> final(self).can_undo(),
            old(self).ready() ==> final(self).ready(),
    {
        let expires = token::rfc3339_after(at.secs, ACCESS_TOKEN_TTL_SECS);
        self.issue_token(user_id, TokenKind::Access, Some(expires), None, None, at)
    }

    /// Makes a refresh token of 30 days, the first of a new family.
    pub fn issue_refresh_token_at(&mut self, user_id: &str, at: &Moment) -> (r: Result<
        IssuedToken,
        Error,
    >)
        ensures
            token_issued(
                old(self).state(),
                old(self).ready(),
                user_id@,
                TokenKind::Refresh,
                Some(2592000),
                *at,
                r,
                final(self).state(),
            ),
            old(self).can_undo() ==> final(self).can_undo(),
            old(self).ready() ==> final(self).ready(),
    {
        let family = ids::new_ulid();
        let expires = token::rfc3339_after(at.secs, REFRESH_TOKEN_TTL_SECS);
        self.issue_token(user_id, TokenKind::Refresh, Some(expires), Some(family), None, at)
    }

    /// Makes an API key now.
    pub fn issue_api_key(&mut self, user_id: &str) -> (r: Result<IssuedToken, Error>)
        ensures
            exists|at: Moment|
                at.well_formed() && #[trigger] token_issued(
                    old(self).state(),
                    old(self).ready(),
                    user_id@,
                    TokenKind::ApiKey,
                    None,
                    at,
                    r,
                    final(self).state(),
                ),
            old(self).can_undo() ==> final(self).can_undo(),
            old(self).ready() ==> final(self).ready(),
    {
        let at = Moment::now();
        self.issue_api_key_at(user_id, &at)
    }

    /// Makes an access token now.
    pub fn issue_access_token(&mut self, user_id: &str) -> (r: Result<IssuedToken, Error>)
        ensures
            exists|at: Moment|
                at.well_formed() && #[trigger] token_issued(
                    old(self).state(),
                    old(self).ready(),
                    user_id@,
                    TokenKind::Access,
                    Some(3600),
                    at,
                    r,
                    final(self).state(),
                ),
            old(self).can_undo() ==> final(self).can_undo(),
            old(self).ready() ==> final(self).ready(),
    {
        let at = Moment::now();
        self.issue_access_token_at(user_id, &at)
    }

    /// Makes a refresh token now.
    pub fn issue_refresh_token(&mut self, user_id: &str) -> (r: Result<IssuedToken, Error>)
        ensures
            exists|at: Moment|
                at.well_formed() && #[trigger] token_issued(
                    old(self).state(),
                    old(self).ready(),
                    user_id@,
                    TokenKind::Refresh,
                    Some(2592000),
                    at,
                    r,
                    final(self).state(),
                ),
            old(self).can_undo() ==> final(self).can_undo(),
            old(self).ready() ==> final(self).ready(),
    {
        let at = Moment::now();
        self.issue_refresh_token_at(user_id, &at)
    }

    /// What a user may read.
    fn build_store_access(&self, user: &UserRow) -> (r: Result<StoreAccess, Error>)
        ensures
            r is Ok ==> r->Ok_0@ == access_of(self.state(), user@),
            self.ready() ==> r is Ok,
    {
        match user.role {
            Role::Admin => Ok(StoreAccess::All),
            Role::Member => {
                let grants = match self.store.list_grants_for_user(user.id.as_str()) {
                    Ok(g) => g,
                    Err(e) => return Err(e),
                };
                let ghost gs = lists::views_of(grants@);
                let mut names: Vec<String> = Vec::new();
                let mut i: usize = 0;
                while i < grants.len()
                    invariant
                        i <= grants.len(),
                        names.len() == i,
                        gs == lists::views_of(grants@),
                        forall|j: int| 0 <= j < i ==> (#[trigger] names@[j])@ == gs[j].store_name,
                    decreases grants.len() - i,
                {
                    names.push(grants[i].store_name.clone());
                    i += 1;
                }
                assert(text::views(names@) =~= granted_names(gs));
                Ok(StoreAccess::Granted(names))
            },
        }
    }

    /// Resolves a bearer secret to the principal behind it, at the given moment.
    pub fn authenticate_at(&mut self, bearer_secret: &str, at: &Moment) -> (r: Result<
        Principal,
        Error,
    >)
        ensures
            authenticated(
                old(self).state(),
                old(self).ready(),
                token::secret_hash(bearer_secret@),
                *at,
                r,
                final(self).state(),
            ),
            old(self).can_undo() ==> final(self).can_undo(),
            old(self).ready() ==> final(self).ready(),
    {
        let hash = token::hash_secret(bearer_secret);
        let found = match self.store.find_token_by_hash(hash.as_str()) {
            Ok(Some(t)) => t,
            Ok(None) => return Err(Error::unauthorized("invalid bearer token")),
            Err(e) => return Err(e),
        };
        if found.revoked_at.is_some() {
            return Err(Error::unauthorized("token has been revoked"));
        }
        if passed(&found.expires_at, at) {
            return Err(Error::unauthorized("token has expired"));
        }
        let user = match self.store.get_user(found.user_id.as_str()) {
            Ok(Some(u)) => u,
            Ok(None) => return Err(Error::unauthorized("token's user no longer exists")),
            Err(e) => return Err(e),
        };
        if found.kind == TokenKind::ApiKey {
            match self.store.mark_token_used(found.id.as_str(), at.stamp.as_str()) {
                Ok(()) => {},
                Err(e) => return Err(e),
            }
        }
        let access = match self.build_store_access(&user) {
            Ok(a) => a,
            Err(e) => return Err(e),
        };
        Ok(Principal { user_id: user.id, name: user.name, role: user.role, access })
    }

    /// Resolves a bearer secret to the principal behind it, now.
    pub fn authenticate(&mut self, bearer_secret: &str) -> (r: Result<Principal, Error>)
        ensures
            exists|at: Moment|
                at.well_formed() && #[trigger] authenticated(
                    old(self).state(),
                    old(self).ready(),
                    token::secret_hash(bearer_secret@),
                    at,
                    r,
                    final(self).state(),
                ),
            old(self).can_undo() ==> final(self).can_undo(),
            old(self).ready() ==> final(self).ready(),
    {
        let at = Moment::now();
        self.authenticate_at(bearer_secret, &at)
    }

    /// Revokes the family of a refresh token that was presented again.
    fn burn(&mut self, found: &AuthTokenRow, at: &Moment) -> (r: Result<(), Error>)
        ensures
            r is Ok ==> final(self).state() == after_reuse(old(self).state(), found@, at.stamp@),
            r is Err ==> final(self).state() == old(self).state(),
            old(self).can_undo() ==> final(self).can_undo(),
            old(self).ready() ==> final(self).ready() && r is Ok,
    {
        match &found.family_id {
            Some(f) => match self.store.revoke_token_family(f.as_str(), at.stamp.as_str()) {
                Ok(_) => Ok(()),
                Err(e) => Err(e),
            },
            None => Ok(()),
        }
    }

    /// Exchanges a refresh token for a new access and refresh token. One that was used
    /// before, or is used by someone else at the same time, revokes its whole family.
    pub fn rotate_refresh_token_at(&mut self, presented_secret: &str, at: &Moment) -> (r: Result<
        (IssuedToken, IssuedToken),
        Error,
    >)
        ensures
            rotated(
                old(self).state(),
                old(self).ready(),
                token::secret_hash(presented_secret@),
                *at,
                r,
                final(self).state(),
            ),
            old(self).can_undo() ==> final(self).can_undo(),
            old(self).ready() ==> final(self).ready(),
    {
        let hash = token::hash_secret(presented_secret);
        let found = match self.store.find_token_by_hash(hash.as_str()) {
            Ok(Some(t)) => t,
            Ok(None) => return Err(Error::unauthorized("invalid refresh token")),
            Err(e) => return Err(e),
        };
        if found.kind != TokenKind::Refresh {
            return Err(Error::unauthorized("not a refresh token"));
        }
        if found.revoked_at.is_some() {
            return match self.burn(&found, at) {
                Ok(()) => Err(
                    Error::unauthorized("refresh token reuse detected; session revoked"),
                ),
                Err(e) => Err(e),
            };
        }
        if passed(&found.expires_at, at) {
            return Err(Error::unauthorized("refresh token has expired"));
        }
        match self.store.revoke_token(found.id.as_str(), at.stamp.as_str()) {
            Ok(true) => {},
            Ok(false) => {
                return match self.burn(&found, at) {
                    Ok(()) => Err(
                        Error::unauthorized("refresh token reuse detected; session revoked"),
                    ),
                    Err(e) => Err(e),
                };
            },
            Err(e) => return Err(e),
        }
        let family = match &found.family_id {
            Some(f) => f.clone(),
            None => ids::new_ulid(),
        };
        let expires = token::rfc3339_after(at.secs, REFRESH_TOKEN_TTL_SECS);
        let refresh = match self.issue_token(
            found.user_id.as_str(),
            TokenKind::Refresh,
            Some(expires),
            Some(family),
            Some(found.id.clone()),
            at,
        ) {
            Ok(t) => t,
            Err(e) => return Err(e),
        };
        let access = match self.issue_access_token_at(found.user_id.as_str(), at) {
            Ok(t) => t,
            Err(e) => return Err(e),
        };
        Ok((access, refresh))
    }

    /// Exchanges a refresh token now.
    pub fn rotate_refresh_token(&mut self, presented_secret: &str) -> (r: Result<
        (IssuedToken, IssuedToken),
        Error,
    >)
        ensures
            exists|at: Moment|
                at.well_formed() && #[trigger] rotated(
                    old(self).state(),
                    old(self).ready(),
                    token::secret_hash(presented_secret@),
                    at,
                    r,
                    final(self).state(),
                ),
            old(self).can_undo() ==> final(self).can_undo(),
            old(self).ready() ==> final(self).ready(),
    {
        let at = Moment::now();
        self.rotate_refresh_token_at(presented_secret, &at)
    }

    /// Revokes whatever the secret belongs to; a refresh token with its family. Says whether
    /// anything was revoked.
    pub fn revoke_by_secret_at(&mut self, secret: &str, at: &Moment) -> (r: Result<bool, Error>)
        ensures
            secret_revoked(
                old(self).state(),
                old(self).ready(),
                token::secret_hash(secret@),
                at.stamp@,
                r,
                final(self).state(),
            ),
            old(self).can_undo() ==> final(self).can_undo(),
            old(self).ready() ==> final(self).ready(),
    {
        let hash = token::hash_secret(secret);
        let found = match self.store.find_token_by_hash(hash.as_str()) {
            Ok(Some(t)) => t,
            Ok(None) => return Ok(false),
            Err(e) => return Err(e),
        };
        if found.kind == TokenKind::Refresh {
            if let Some(f) = &found.family_id {
                return match self.store.revoke_token_family(f.as_str(), at.stamp.as_str()) {
                    Ok(n) => Ok(n > 0),
                    Err(e) => Err(e),
                };
            }
        }
        self.store.revoke_token(found.id.as_str(), at.stamp.as_str())
    }

    /// Revokes whatever the secret belongs to, now.
    pub fn revoke_by_secret(&mut self, secret: &str) -> (r: Result<bool, Error>)
        ensures
            exists|at: Moment|
                at.well_formed() && #[trigger] secret_revoked(
                    old(self).state(),
                    old(self).ready(),
                    token::secret_hash(secret@),
                    at.stamp@,
                    r,
                    final(self).state(),
                ),
            old(self).can_undo() ==> final(self).can_undo(),
            old(self).ready() ==> final(self).ready(),
    {
        let at = Moment::now();
        self.revoke_by_secret_at(secret, &at)
    }
}

// ---------------------------------------------------------------------------
// Laws
// ---------------------------------------------------------------------------
/// No two tokens share an id.
pub open spec fn distinct_tokens(st: store::AuthState) -> bool {
    forall|i: int, j: int|
        0 <= i < j < st.tokens.len() ==> (#[trigger] st.tokens[i]).id != (#[trigger] st.tokens[j]).id
}

/// A token that was issued authenticates its user until it expires, if its digest was not
/// taken before.
pub proof fn issued_tokens_authenticate(
    st: store::AuthState,
    t: IssuedToken,
    user: Seq<char>,
    kind: TokenKind,
    expires_at: Option<Seq<char>>,
    stamp: Seq<char>,
    now: Seq<char>,
)
    requires
        is_issued(t, user, kind, expires_at, stamp),
        st.token_with(token::secret_hash(t.secret@)) is None,
        st.user(user) is Some,
        !has_passed(expires_at, now),
    ensures
        bearer_refusal(st.adding_token(t.row@), token::secret_hash(t.secret@), now) is None,
        st.adding_token(t.row@).token_with(token::secret_hash(t.secret@)) == Some(t.row@),
{
    let p = tables::token_hash_is(token::secret_hash(t.secret@));
    let after = st.adding_token(t.row@);
    lists::lemma_first_from(st.tokens, p, 0);
    lists::lemma_first_from(after.tokens, p, 0);
    let n = st.tokens.len() as int;
    assert(p(after.tokens[n]));
    let k = lists::first_from(after.tokens, p, 0)->0;
    if k < n {
        assert(after.tokens[k] == st.tokens[k]);
    }
}

proof fn lemma_revoked(st: store::AuthState, hash: Seq<char>, stamp: Seq<char>)
    requires
        distinct_tokens(st),
        st.token_with(hash) is Some,
    ensures
        ({
            let t = st.token_with(hash)->0;
            let after = st.revoking_token(t.id, stamp);
            after.token_with(hash) == Some(store::token_revoked(stamp)(t))
        }),
{
    let byhash = tables::token_hash_is(hash);
    let t = st.token_with(hash)->0;
    let byid = tables::token_id_is(t.id);
    lists::lemma_first_from(st.tokens, byhash, 0);
    lists::lemma_first_from(st.tokens, byid, 0);
    let i = lists::first_from(st.tokens, byhash, 0)->0;
    assert(byid(st.tokens[i]));
    let k = lists::first_from(st.tokens, byid, 0)->0;
    if k < i {
        assert(st.tokens[k].id != st.tokens[i].id);
    }
    let after = st.revoking_token(t.id, stamp);
    lists::lemma_first_from(after.tokens, byhash, 0);
    assert(byhash(after.tokens[i]));
    let m = lists::first_from(after.tokens, byhash, 0)->0;
    if m < i {
        assert(after.tokens[m] == st.tokens[m]);
        assert(!byhash(st.tokens[m]));
    }
}

proof fn lemma_token_stays(st: store::AuthState, hash: Seq<char>, t: rows::TokenView)
    requires
        st.token_with(hash) is Some,
    ensures
        st.adding_token(t).token_with(hash) == st.token_with(hash),
{
    let p = tables::token_hash_is(hash);
    let after = st.adding_token(t);
    lists::lemma_first_from(st.tokens, p, 0);
    lists::lemma_first_from(after.tokens, p, 0);
    let i = lists::first_from(st.tokens, p, 0)->0;
    assert(after.tokens[i] == st.tokens[i]);
    assert(p(after.tokens[i]));
    let k = lists::first_from(after.tokens, p, 0)->0;
    if k < i {
        assert(after.tokens[k] == st.tokens[k]);
        assert(!p(st.tokens[k]));
    }
}

/// A revoked token does not authenticate any more.
pub proof fn revoked_tokens_are_refused(
    st: store::AuthState,
    hash: Seq<char>,
    stamp: Seq<char>,
    now: Seq<char>,
)
    requires
        distinct_tokens(st),
        st.token_with(hash) is Some,
    ensures
        bearer_refusal(st.revoking_token(st.token_with(hash)->0.id, stamp), hash, now) == Some(
            "token has been revoked"@,
        ),
{
    lemma_revoked(st, hash, stamp);
}

/// A refresh token is good for one rotation: after it, the token counts as reused, and its
/// reuse revokes the family that the new token belongs to.
pub proof fn refresh_tokens_rotate_once(
    st: store::AuthState,
    hash: Seq<char>,
    stamp: Seq<char>,
    refresh: rows::TokenView,
    access: rows::TokenView,
    now: Seq<char>,
)
    requires
        distinct_tokens(st),
        st.token_with(hash) matches Some(t) && t.kind == TokenKind::Refresh,
    ensures
        ({
            let t = st.token_with(hash)->0;
            let after = st.revoking_token(t.id, stamp).adding_token(refresh).adding_token(access);
            &&& refresh_refusal(after, hash, now) is None
            &&& after.token_with(hash) matches Some(u) && u.revoked_at is Some && u.family_id
                == t.family_id
        }),
{
    let t = st.token_with(hash)->0;
    lemma_revoked(st, hash, stamp);
    let a = st.revoking_token(t.id, stamp);
    lemma_token_stays(a, hash, refresh);
    lemma_token_stays(a.adding_token(refresh), hash, access);
}

/// The reuse of a refresh token leaves no live token in its family.
pub proof fn reuse_revokes_the_whole_family(
    st: store::AuthState,
    t: rows::TokenView,
    stamp: Seq<char>,
    i: int,
)
    requires
        t.family_id is Some,
        0 <= i < st.tokens.len(),
        st.tokens[i].family_id == t.family_id,
    ensures
        after_reuse(st, t, stamp).tokens[i].revoked_at is Some,
{
}

/// A refresh token that was rotated is refused when it is presented again, and then the tokens
/// that it was exchanged for are worth nothing either: every token of the family is revoked,
/// and the new secret neither authenticates nor rotates. The new secret's digest must not have
/// been taken before.
pub proof fn reuse_is_refused_and_ends_the_session(
    st: store::AuthState,
    ready: bool,
    hash: Seq<char>,
    at: Moment,
    first: Result<(IssuedToken, IssuedToken), Error>,
    mid: store::AuthState,
    later: Moment,
    again: Result<(IssuedToken, IssuedToken), Error>,
    last: store::AuthState,
    now: Seq<char>,
)
    requires
        distinct_tokens(st),
        rotated(st, ready, hash, at, first, mid),
        first matches Ok((_, refresh)) && st.token_with(token::secret_hash(refresh.secret@)) is None,
        st.token_with(hash) matches Some(t) && t.family_id is Some,
        rotated(mid, true, hash, later, again, last),
    ensures
        again is Err,
        again->Err_0@ == refused(reuse_message()),
        forall|i: int|
            0 <= i < last.tokens.len() && (#[trigger] last.tokens[i]).family_id == st.token_with(
                hash,
            )->0.family_id ==> last.tokens[i].revoked_at is Some,
        ({
            let new = token::secret_hash((first->Ok_0).1.secret@);
            &&& bearer_refusal(last, new, now) == Some("token has been revoked"@)
            &&& last.token_with(new) matches Some(u) && u.revoked_at is Some
        }),
{
    let t = st.token_with(hash)->0;
    let (access, refresh) = first->Ok_0;
    let new = token::secret_hash(refresh.secret@);
    refresh_tokens_rotate_once(st, hash, at.stamp@, refresh.row@, access.row@, later.text());
    let f = t.family_id->0;
    assert(last == mid.burning_family(f, later.stamp@));
    let p = tables::token_hash_is(new);
    let n = st.tokens.len() as int;
    lists::lemma_first_from(st.tokens, p, 0);
    lists::lemma_first_from(st.tokens, tables::token_id_is(t.id), 0);
    lists::lemma_first_from(last.tokens, p, 0);
    let revoked = st.revoking_token(t.id, at.stamp@);
    assert(mid.tokens[n] == refresh.row@);
    assert(p(last.tokens[n]));
    let k = lists::first_from(last.tokens, p, 0)->0;
    if k < n {
        assert(last.tokens[k].secret_hash == mid.tokens[k].secret_hash);
        assert(mid.tokens[k] == revoked.tokens[k]);
        assert(revoked.tokens[k].secret_hash == st.tokens[k].secret_hash);
        assert(!p(st.tokens[k]));
    }
}

} // verus!
