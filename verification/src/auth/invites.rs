//! The auth policy for invites and access requests.

use super::principal::Role;
use super::rows;
use super::rows::{
    AccessRequestRow, AccessRequestState, InviteMode, InviteRow, StoreGrantRow, UserRow,
};
use super::service;
use super::service::{AuthService, IssuedInvite, IssuedToken, PollOutcome, RedeemOutcome};
use super::store;
use super::store::AuthStore;
use super::tables;
use super::token;
use crate::clock::Moment;
use crate::error::{Error, ErrorView};
use crate::ids;
use crate::lists;
use crate::text;
use crate::types::StoreVisibility;
use vstd::prelude::*;

verus! {

// ---------------------------------------------------------------------------
// Making invites
// ---------------------------------------------------------------------------
/// The error for a private store in an invite.
pub open spec fn not_by_invite(store: Seq<char>) -> ErrorView {
    ErrorView::Forbidden {
        message: "store '"@ + store
            + "' is private; only shared stores can be granted via invite"@,
    }
}

/// Whether all stores are shared.
pub open spec fn all_shared(grants: Seq<(String, StoreVisibility)>) -> bool {
    forall|i: int| 0 <= i < grants.len() ==> (#[trigger] grants[i]).1 == StoreVisibility::Shared
}

/// The names of the stores.
pub open spec fn store_names(grants: Seq<(String, StoreVisibility)>) -> Seq<Seq<char>> {
    Seq::new(grants.len(), |i: int| grants[i].0@)
}

/// A new invite, and the secret that it is kept as the digest of.
pub open spec fn is_new_invite(
    inv: IssuedInvite,
    mode: InviteMode,
    grants: Seq<Seq<char>>,
    max_uses: u32,
    expires_at: Option<Seq<char>>,
    by: Seq<char>,
) -> bool {
    &&& inv.row@.id.len() == 26
    &&& token::is_minted(inv.secret@, inv.row@.token_hash)
    &&& inv.row@.mode == mode
    &&& inv.row@.store_grants == grants
    &&& inv.row@.max_uses == max_uses
    &&& inv.row@.uses == 0
    &&& inv.row@.expires_at == expires_at
    &&& inv.row@.revoked_at is None
    &&& inv.row@.created_by == by
}

/// The error of an invite that may not be made, if it may not.
pub open spec fn invite_error(grants: Seq<(String, StoreVisibility)>, max_uses: u32, e: ErrorView) -> bool {
    if max_uses == 0 {
        e == (ErrorView::InvalidRequest { message: "max_uses must be at least 1"@ })
    } else {
        exists|i: int|
            0 <= i < grants.len() && grants[i].1 == StoreVisibility::Private && all_shared(
                grants.take(i),
            ) && e == #[trigger] not_by_invite(grants[i].0@)
    }
}

// ---------------------------------------------------------------------------
// Redeeming invites
// ---------------------------------------------------------------------------
/// Why an invite is not accepted, if it is not: it is unknown, revoked, expired or used up.
pub open spec fn invite_refusal(st: store::AuthState, hash: Seq<char>, now: Seq<char>) -> Option<
    Seq<char>,
> {
    match st.invite_with(hash) {
        None => Some("invalid or unknown invite token"@),
        Some(i) => if i.revoked_at is Some {
            Some("invite has been revoked"@)
        } else if service::has_passed(i.expires_at, now) {
            Some("invite has expired"@)
        } else if i.uses >= i.max_uses {
            Some("invite has no remaining uses"@)
        } else {
            None
        },
    }
}

/// Whether the invite of the id has a use left.
pub open spec fn has_use(st: store::AuthState, id: Seq<char>) -> bool {
    st.invite(id) matches Some(i) && i.uses < i.max_uses
}

/// The store with the first `n` of an invite's stores granted to a user.
pub open spec fn granting_first(
    st: store::AuthState,
    names: Seq<Seq<char>>,
    n: int,
    user: Seq<char>,
    by: Seq<char>,
    stamp: Seq<char>,
) -> store::AuthState
    decreases n,
{
    if n <= 0 {
        st
    } else {
        granting_first(st, names, n - 1, user, by, stamp).granting(
            super::grants::grant_of(names[n - 1], user, by, stamp),
        )
    }
}

/// The store with all of an invite's stores granted to a user.
pub open spec fn granting_all(
    st: store::AuthState,
    inv: rows::InviteView,
    user: Seq<char>,
    stamp: Seq<char>,
) -> store::AuthState {
    granting_first(st, inv.store_grants, inv.store_grants.len() as int, user, inv.created_by, stamp)
}

/// A new pending request through an invite, and the secret that it is kept as the digest of.
pub open spec fn is_new_request(
    q: rows::RequestView,
    secret: Seq<char>,
    invite: Seq<char>,
    name: Seq<char>,
    stamp: Seq<char>,
) -> bool {
    &&& q.id.len() == 26
    &&& q.invite_id == invite
    &&& q.requested_name == name
    &&& token::is_minted(secret, q.secret_hash)
    &&& q.state == AccessRequestState::Pending
    &&& q.resulting_user_id is None
    &&& q.created_at == stamp
    &&& q.decided_at is None
    &&& q.collected_at is None
}

/// No invite was used more often than it may be.
pub open spec fn uses_are_capped(st: store::AuthState) -> bool {
    forall|i: int| 0 <= i < st.invites.len() ==> (#[trigger] st.invites[i]).uses <= st.invites[i].max_uses
}

/// Whether a name says nothing.
pub open spec fn is_blank_name(name: Seq<char>) -> bool {
    text::trimmed(name).len() == 0
}

/// Nothing is left of what a failed call began: the store is as it was, but for what bore the
/// id of a user that was made and deleted again. See [`undoing_leaves_nothing`].
pub open spec fn undone(st: store::AuthState, after: store::AuthState) -> bool {
    after == st || exists|id: Seq<char>| id.len() == 26 && after == #[trigger] st.scrubbed(id)
}

/// What redeeming an invite does, from the store before it to the store after it. Whatever
/// fails, at most the one use is gone; where the store can undo, it is given back, and the
/// user that was begun is deleted with its grants.
pub open spec fn invite_redeemed(
    st: store::AuthState,
    ready: bool,
    can_undo: bool,
    hash: Seq<char>,
    name: Seq<char>,
    now: Seq<char>,
    stamp: Seq<char>,
    r: Result<RedeemOutcome, Error>,
    after: store::AuthState,
) -> bool {
    let refusal = invite_refusal(st, hash, now);
    let inv = st.invite_with(hash)->0;
    let used = st.taking_use(inv.id);
    &&& r is Ok ==> !is_blank_name(name) && refusal is None && has_use(st, inv.id)
    &&& r matches Ok(RedeemOutcome::Open { user, grants, credential }) ==> {
        &&& inv.mode == InviteMode::Open
        &&& st.user_named(name) is None
        &&& service::is_new_user(user@, name, Role::Member, stamp)
        &&& text::views(grants@) == inv.store_grants
        &&& service::is_issued(credential, user@.id, super::rows::TokenKind::ApiKey, None, stamp)
        &&& after == granting_all(used.adding_user(user@), inv, user@.id, stamp).adding_token(
            credential.row@,
        )
    }
    &&& r matches Ok(RedeemOutcome::Closed { request_id, request_secret }) ==> {
        &&& inv.mode == InviteMode::Closed
        &&& exists|q: rows::RequestView|
            q.id == request_id@ && is_new_request(q, request_secret@, inv.id, name, stamp)
                && after == #[trigger] used.adding_request(q)
    }
    &&& is_blank_name(name) ==> r is Err && after == st && r->Err_0@ == (
    ErrorView::InvalidRequest { message: "requested name must not be empty"@ })
    &&& refusal is Some ==> r is Err && after == st
    &&& ready && !is_blank_name(name) && refusal is Some ==> r->Err_0@ == service::refused(
        refusal->0,
    )
    &&& ready && !is_blank_name(name) && refusal is None && !has_use(st, inv.id) ==> r is Err
        && r->Err_0@ == service::refused("invite has no remaining uses"@)
    &&& ready && !is_blank_name(name) && refusal is None && has_use(st, inv.id) ==> (r is Ok
        <==> inv.mode == InviteMode::Closed || st.user_named(name) is None)
    &&& ready && !is_blank_name(name) && refusal is None && has_use(st, inv.id) && r is Err
        ==> r->Err_0@ == store::name_taken(name)
    &&& ready && r is Err ==> after == st
    &&& r is Err ==> after.invites == st.invites || after.invites == used.invites
    &&& can_undo && r is Err ==> undone(st, after)
}

// ---------------------------------------------------------------------------
// Deciding and polling requests
// ---------------------------------------------------------------------------
/// The error for a request that does not exist.
pub open spec fn no_such_request(id: Seq<char>) -> ErrorView {
    ErrorView::InvalidRequest { message: "access request '"@ + id + "' not found"@ }
}

/// The error for a request that was decided before.
pub open spec fn not_pending(id: Seq<char>) -> ErrorView {
    ErrorView::InvalidRequest { message: "access request '"@ + id + "' is no longer pending"@ }
}

/// The error for a request whose invite is gone.
pub open spec fn invite_gone(id: Seq<char>, invite: Seq<char>) -> ErrorView {
    ErrorView::Internal {
        message: "access request '"@ + id + "' references missing invite '"@ + invite + "'"@,
        correlation_id: "approve_request_missing_invite"@,
    }
}

/// Why a request is not approved, if it is not.
pub open spec fn approval_error(st: store::AuthState, id: Seq<char>) -> Option<ErrorView> {
    match st.request(id) {
        None => Some(no_such_request(id)),
        Some(q) => if q.state != AccessRequestState::Pending {
            Some(not_pending(id))
        } else if st.invite(q.invite_id) is None {
            Some(invite_gone(id, q.invite_id))
        } else if st.user_named(q.requested_name) is Some {
            Some(store::name_taken(q.requested_name))
        } else {
            None
        },
    }
}

/// What polling a request does, from the store before it to the store after it.
pub open spec fn request_polled(
    st: store::AuthState,
    ready: bool,
    id: Seq<char>,
    secret: Seq<char>,
    stamp: Seq<char>,
    r: Result<PollOutcome, Error>,
    after: store::AuthState,
) -> bool {
    let known = st.request(id) matches Some(q) && token::secret_hash(secret) == q.secret_hash;
    let q = st.request(id)->0;
    let approved = q.state == AccessRequestState::Approved;
    let collected = st.collecting_request(id, stamp);
    &&& !known ==> r is Err && after == st
    &&& ready && !known ==> r->Err_0@ == service::refused("invalid access request id or secret"@)
    &&& r matches Ok(PollOutcome::Pending) ==> known && q.state == AccessRequestState::Pending
        && after == st
    &&& r matches Ok(PollOutcome::Denied) ==> known && q.state == AccessRequestState::Denied
        && after == st
    &&& r matches Ok(PollOutcome::AlreadyCollected) ==> known && approved && after == st
    &&& r matches Ok(PollOutcome::Approved { credential }) ==> {
        &&& known && approved && q.collected_at is None && q.resulting_user_id is Some
        &&& exists|t: IssuedToken|
            t.secret@ == credential@ && service::is_issued(
                t,
                q.resulting_user_id->0,
                super::rows::TokenKind::ApiKey,
                None,
                stamp,
            ) && after == #[trigger] collected.adding_token(t.row@)
    }
    &&& ready && known && q.state == AccessRequestState::Pending ==> (r
        matches Ok(PollOutcome::Pending))
    &&& ready && known && q.state == AccessRequestState::Denied ==> (r
        matches Ok(PollOutcome::Denied))
    &&& ready && known && approved && q.collected_at is Some ==> (r
        matches Ok(PollOutcome::AlreadyCollected))
    &&& ready && known && approved && q.collected_at is None && q.resulting_user_id is Some ==> (r
        matches Ok(PollOutcome::Approved { .. }))
    &&& ready && known && approved && q.collected_at is None && q.resulting_user_id is None ==> r
        is Err && after == collected && r->Err_0@ == (ErrorView::Internal {
        message: "access request '"@ + id + "' is approved but has no resulting_user_id"@,
        correlation_id: "poll_request_missing_resulting_user"@,
    })
    &&& r is Err ==> after == st || known && approved && q.collected_at is None && after
        == collected
}

/// What making an invite does, from the store before it to the store after it.
pub open spec fn invite_made(
    st: store::AuthState,
    ready: bool,
    mode: InviteMode,
    grants: Seq<(String, StoreVisibility)>,
    max_uses: u32,
    expires_at: Option<Seq<char>>,
    by: Seq<char>,
    stamp: Seq<char>,
    r: Result<IssuedInvite, Error>,
    after: store::AuthState,
) -> bool {
    let allowed = max_uses > 0 && all_shared(grants);
    &&& r matches Ok(inv) ==> {
        &&& allowed
        &&& is_new_invite(inv, mode, store_names(grants), max_uses, expires_at, by)
        &&& inv.row@.created_at == stamp
        &&& after == st.adding_invite(inv.row@)
    }
    &&& r is Err ==> after == st
    &&& !allowed ==> r is Err && invite_error(grants, max_uses, r->Err_0@)
    &&& ready ==> (r is Ok <==> allowed)
}

/// What approving a request does, from the store before it to the store after it. Where a
/// step fails or another decision was faster, the user that was begun is deleted again.
pub open spec fn request_approved(
    st: store::AuthState,
    ready: bool,
    can_undo: bool,
    id: Seq<char>,
    stamp: Seq<char>,
    r: Result<UserRow, Error>,
    after: store::AuthState,
) -> bool {
    let q = st.request(id)->0;
    let error = approval_error(st, id);
    &&& r matches Ok(u) ==> {
        &&& error is None
        &&& service::is_new_user(u@, q.requested_name, Role::Member, stamp)
        &&& after == granting_all(
            st.adding_user(u@),
            st.invite(q.invite_id)->0,
            u@.id,
            stamp,
        ).deciding_request(id, AccessRequestState::Approved, Some(u@.id), stamp)
    }
    &&& error is Some ==> r is Err && after == st
    &&& can_undo && r is Err ==> undone(st, after)
    &&& ready ==> (r is Ok <==> error is None)
    &&& ready && error is Some ==> r->Err_0@ == error->0
}

/// What denying a request does, from the store before it to the store after it.
pub open spec fn request_denied(
    st: store::AuthState,
    ready: bool,
    id: Seq<char>,
    stamp: Seq<char>,
    r: Result<(), Error>,
    after: store::AuthState,
) -> bool {
    let pending = st.request(id) matches Some(q) && q.state == AccessRequestState::Pending;
    &&& r is Ok ==> pending && after == st.deciding_request(
        id,
        AccessRequestState::Denied,
        None,
        stamp,
    )
    &&& r is Err ==> after == st
    &&& ready ==> (r is Ok <==> pending)
    &&& ready && r is Err ==> r->Err_0@ == (if st.request(id) is None {
        no_such_request(id)
    } else {
        not_pending(id)
    })
}

impl<S: AuthStore> AuthService<S> {
    /// Makes an invite. It must allow a use, and may grant shared stores only.
    pub fn create_invite_at(
        &mut self,
        mode: InviteMode,
        store_grants: &[(String, StoreVisibility)],
        max_uses: u32,
        expires_at: Option<String>,
        created_by: &str,
        at: &Moment,
    ) -> (r: Result<IssuedInvite, Error>)
        ensures
            invite_made(
                old(self).state(),
                old(self).ready(),
                mode,
                store_grants@,
                max_uses,
                text::opt_view(expires_at),
                created_by@,
                at.stamp@,
                r,
                final(self).state(),
            ),
            old(self).can_undo() ==> final(self).can_undo(),
            old(self).ready() ==> final(self).ready(),
    {
        if max_uses == 0 {
            return Err(Error::invalid_request("max_uses must be at least 1".to_owned()));
        }
        let mut names: Vec<String> = Vec::new();
        let mut i: usize = 0;
        while i < store_grants.len()
            invariant
                i <= store_grants.len(),
                names.len() == i,
                max_uses > 0,
                self.state() == old(self).state(),
                self.can_undo() == old(self).can_undo(),
                self.ready() == old(self).ready(),
                forall|j: int|
                    0 <= j < i ==> (#[trigger] store_grants@[j]).1 == StoreVisibility::Shared,
                forall|j: int| 0 <= j < i ==> (#[trigger] names@[j])@ == store_grants@[j].0@,
            decreases store_grants.len() - i,
        {
            if store_grants[i].1 == StoreVisibility::Private {
                let e = Error::Forbidden {
                    message: text::concat3(
                        "store '",
                        store_grants[i].0.as_str(),
                        "' is private; only shared stores can be granted via invite",
                    ),
                };
                assert(e@ == not_by_invite(store_grants@[i as int].0@));
                assert(!all_shared(store_grants@));
                return Err(e);
            }
            names.push(store_grants[i].0.clone());
            i += 1;
        }
        assert(text::views(names@) =~= store_names(store_grants@));
        let minted = token::mint_secret();
        let row = InviteRow {
            id: ids::new_ulid(),
            token_hash: minted.hash,
            mode,
            store_grants: names,
            max_uses,
            uses: 0,
            expires_at,
            revoked_at: None,
            created_by: created_by.to_owned(),
            created_at: at.stamp.clone(),
        };
        match self.store.create_invite(&row) {
            Ok(()) => Ok(IssuedInvite { row, secret: minted.secret }),
            Err(e) => Err(e),
        }
    }

    /// Makes an invite, now.
    pub fn create_invite(
        &mut self,
        mode: InviteMode,
        store_grants: &[(String, StoreVisibility)],
        max_uses: u32,
        expires_at: Option<String>,
        created_by: &str,
    ) -> (r: Result<IssuedInvite, Error>)
        ensures
            exists|at: Moment|
                at.well_formed() && #[trigger] invite_made(
                    old(self).state(),
                    old(self).ready(),
                    mode,
                    store_grants@,
                    max_uses,
                    text::opt_view(expires_at),
                    created_by@,
                    at.stamp@,
                    r,
                    final(self).state(),
                ),
            old(self).can_undo() ==> final(self).can_undo(),
            old(self).ready() ==> final(self).ready(),
    {
        let at = Moment::now();
        self.create_invite_at(mode, store_grants, max_uses, expires_at, created_by, &at)
    }

    /// Grants an invite's stores to a user, in the name of the invite's maker.
    fn apply_invite_grants(&mut self, invite: &InviteRow, user_id: &str, at: &Moment) -> (r: Result<
        (),
        Error,
    >)
        ensures
            r is Ok ==> final(self).state() == granting_all(
                old(self).state(),
                invite@,
                user_id@,
                at.stamp@,
            ),
            exists|n: int|
                final(self).state() == #[trigger] granting_first(
                    old(self).state(),
                    invite@.store_grants,
                    n,
                    user_id@,
                    invite@.created_by,
                    at.stamp@,
                ),
            final(self).state().invites == old(self).state().invites,
            old(self).can_undo() ==> final(self).can_undo(),
            old(self).ready() ==> final(self).ready() && r is Ok,
    {
        let mut i: usize = 0;
        while i < invite.store_grants.len()
            invariant
                i <= invite.store_grants.len(),
                old(self).can_undo() ==> self.can_undo(),
                old(self).ready() ==> self.ready(),
                self.state().invites == old(self).state().invites,
                self.state() == granting_first(
                    old(self).state(),
                    invite@.store_grants,
                    i as int,
                    user_id@,
                    invite@.created_by,
                    at.stamp@,
                ),
            decreases invite.store_grants.len() - i,
        {
            let grant = StoreGrantRow {
                store_name: invite.store_grants[i].clone(),
                user_id: user_id.to_owned(),
                granted_by: invite.created_by.clone(),
                created_at: at.stamp.clone(),
            };
            match self.store.grant_store(&grant) {
                Ok(()) => {},
                Err(e) => return Err(e),
            }
            i += 1;
        }
        Ok(())
    }

    /// Creates the user of an open invite, with its grants and an API key. Where a step
    /// fails, the user is deleted again.
    fn mint_open_invite_redemption(&mut self, invite: &InviteRow, name: &str, at: &Moment) -> (r:
        Result<RedeemOutcome, Error>)
        ensures
            ({
                let st = old(self).state();
                &&& r is Ok ==> r->Ok_0 is Open
                &&& r matches Ok(RedeemOutcome::Open { user, grants, credential }) ==> {
                    &&& st.user_named(name@) is None
                    &&& service::is_new_user(user@, name@, Role::Member, at.stamp@)
                    &&& text::views(grants@) == invite@.store_grants
                    &&& service::is_issued(
                        credential,
                        user@.id,
                        super::rows::TokenKind::ApiKey,
                        None,
                        at.stamp@,
                    )
                    &&& final(self).state() == granting_all(
                        st.adding_user(user@),
                        invite@,
                        user@.id,
                        at.stamp@,
                    ).adding_token(credential.row@)
                }
                &&& final(self).state().invites == st.invites
                &&& old(self).can_undo() ==> final(self).can_undo()
                &&& old(self).can_undo() && r is Err ==> undone(st, final(self).state())
                &&& old(self).ready() ==> final(self).ready() && (r is Ok <==> st.user_named(name@)
                    is None)
                &&& old(self).ready() && r is Err ==> final(self).state() == st && r->Err_0@
                    == store::name_taken(name@)
            }),
    {
        let ghost st = self.state();
        let user = match self.create_user_at(name, Role::Member, at) {
            Ok(u) => u,
            Err(e) => return Err(e),
        };
        proof {
            lemma_begun_is_undone(st, user@, invite@, at.stamp@);
        }
        match self.apply_invite_grants(invite, user.id.as_str(), at) {
            Ok(()) => {},
            Err(e) => {
                let _ = self.store.delete_user(user.id.as_str());
                return Err(e);
            },
        }
        let credential = match self.issue_api_key_at(user.id.as_str(), at) {
            Ok(c) => c,
            Err(e) => {
                let _ = self.store.delete_user(user.id.as_str());
                return Err(e);
            },
        };
        Ok(
            RedeemOutcome::Open {
                user,
                grants: text::clone_strings(&invite.store_grants),
                credential,
            },
        )
    }

    /// Files the request of a closed invite.
    fn file_request(&mut self, invite: &InviteRow, name: &str, at: &Moment) -> (r: Result<
        RedeemOutcome,
        Error,
    >)
        ensures
            ({
                let st = old(self).state();
                &&& r is Ok ==> r->Ok_0 is Closed
                &&& r matches Ok(RedeemOutcome::Closed { request_id, request_secret }) ==> exists|
                    q: rows::RequestView,
                |
                    q.id == request_id@ && is_new_request(
                        q,
                        request_secret@,
                        invite@.id,
                        name@,
                        at.stamp@,
                    ) && final(self).state() == #[trigger] st.adding_request(q)
                &&& r is Err ==> final(self).state() == st
                &&& final(self).state().invites == st.invites
                &&& old(self).can_undo() ==> final(self).can_undo()
                &&& old(self).ready() ==> final(self).ready() && r is Ok
            }),
    {
        let minted = token::mint_secret();
        let request = AccessRequestRow {
            id: ids::new_ulid(),
            invite_id: invite.id.clone(),
            requested_name: name.to_owned(),
            secret_hash: minted.hash,
            state: AccessRequestState::Pending,
            resulting_user_id: None,
            created_at: at.stamp.clone(),
            decided_at: None,
            collected_at: None,
        };
        let ghost q = request@;
        let ghost st = self.state();
        match self.store.create_access_request(&request) {
            Ok(()) => {},
            Err(e) => return Err(e),
        }
        assert(self.state() == st.adding_request(q));
        Ok(RedeemOutcome::Closed { request_id: request.id, request_secret: minted.secret })
    }

    /// Redeems an invite: an open one makes a user at once, a closed one files a request. A
    /// use is taken first, and given back where the rest fails.
    pub fn redeem_invite_at(&mut self, token_secret: &str, requested_name: &str, at: &Moment) -> (r:
        Result<RedeemOutcome, Error>)
        ensures
            invite_redeemed(
                old(self).state(),
                old(self).ready(),
                old(self).can_undo(),
                token::secret_hash(token_secret@),
                requested_name@,
                at.text(),
                at.stamp@,
                r,
                final(self).state(),
            ),
            old(self).can_undo() ==> final(self).can_undo(),
            old(self).ready() ==> final(self).ready(),
            uses_are_capped(old(self).state()) ==> uses_are_capped(final(self).state()),
    {
        let ghost st = self.state();
        let name = text::chars_of(requested_name);
        if text::is_blank(name.as_slice()) {
            return Err(Error::invalid_request("requested name must not be empty".to_owned()));
        }
        let hash = token::hash_secret(token_secret);
        let invite = match self.store.find_invite_by_hash(hash.as_str()) {
            Ok(Some(i)) => i,
            Ok(None) => return Err(Error::unauthorized("invalid or unknown invite token")),
            Err(e) => return Err(e),
        };
        if invite.revoked_at.is_some() {
            return Err(Error::unauthorized("invite has been revoked"));
        }
        if service::passed(&invite.expires_at, at) {
            return Err(Error::unauthorized("invite has expired"));
        }
        if invite.uses >= invite.max_uses {
            return Err(Error::unauthorized("invite has no remaining uses"));
        }
        match self.store.try_consume_invite_use(invite.id.as_str()) {
            Ok(true) => {},
            Ok(false) => return Err(Error::unauthorized("invite has no remaining uses")),
            Err(e) => return Err(e),
        }
        let ghost used = self.state();
        proof {
            lemma_use_taken(st, invite@.id);
        }
        let r = match invite.mode {
            InviteMode::Open => self.mint_open_invite_redemption(&invite, requested_name, at),
            InviteMode::Closed => self.file_request(&invite, requested_name, at),
        };
        match r {
            Ok(outcome) => {
                proof {
                    if let RedeemOutcome::Closed { request_id, request_secret } = &outcome {
                        let q = choose|q: rows::RequestView|
                            q.id == request_id@ && is_new_request(
                                q,
                                request_secret@,
                                invite@.id,
                                requested_name@,
                                at.stamp@,
                            ) && self.state() == #[trigger] used.adding_request(q);
                        assert(self.state() == st.taking_use(invite@.id).adding_request(q));
                    }
                }
                Ok(outcome)
            },
            Err(e) => {
                proof {
                    lemma_use_returned(self.state(), invite@.id);
                    lemma_use_returned_undoes(st, self.state(), invite@.id);
                }
                let _ = self.store.release_invite_use(invite.id.as_str());
                Err(e)
            },
        }
    }

    /// Redeems an invite, now.
    pub fn redeem_invite(&mut self, token_secret: &str, requested_name: &str) -> (r: Result<
        RedeemOutcome,
        Error,
    >)
        ensures
            exists|at: Moment|
                at.well_formed() && #[trigger] invite_redeemed(
                    old(self).state(),
                    old(self).ready(),
                    old(self).can_undo(),
                    token::secret_hash(token_secret@),
                    requested_name@,
                    at.text(),
                    at.stamp@,
                    r,
                    final(self).state(),
                ),
            old(self).can_undo() ==> final(self).can_undo(),
            old(self).ready() ==> final(self).ready(),
            uses_are_capped(old(self).state()) ==> uses_are_capped(final(self).state()),
    {
        let at = Moment::now();
        self.redeem_invite_at(token_secret, requested_name, &at)
    }

    /// The error for a request that was decided before.
    fn not_pending_error(request_id: &str) -> (r: Error)
        ensures
            r@ == not_pending(request_id@),
    {
        Error::invalid_request(
            text::concat3("access request '", request_id, "' is no longer pending"),
        )
    }

    /// Approves a pending request: makes the user and grants the invite's stores. No
    /// credential is made yet; the requester gets one on the next poll.
    pub fn approve_request_at(&mut self, request_id: &str, at: &Moment) -> (r: Result<UserRow, Error>)
        ensures
            request_approved(
                old(self).state(),
                old(self).ready(),
                old(self).can_undo(),
                request_id@,
                at.stamp@,
                r,
                final(self).state(),
            ),
            old(self).can_undo() ==> final(self).can_undo(),
            old(self).ready() ==> final(self).ready(),
    {
        let ghost st = self.state();
        let request = match self.store.find_access_request(request_id) {
            Ok(Some(q)) => q,
            Ok(None) => {
                return Err(
                    Error::invalid_request(
                        text::concat3("access request '", request_id, "' not found"),
                    ),
                );
            },
            Err(e) => return Err(e),
        };
        if request.state != AccessRequestState::Pending {
            return Err(Self::not_pending_error(request_id));
        }
        let invite = match self.store.find_invite(request.invite_id.as_str()) {
            Ok(Some(i)) => i,
            Ok(None) => {
                return Err(
                    Error::Internal {
                        message: text::concat5(
                            "access request '",
                            request_id,
                            "' references missing invite '",
                            request.invite_id.as_str(),
                            "'",
                        ),
                        correlation_id: "approve_request_missing_invite".to_owned(),
                    },
                );
            },
            Err(e) => return Err(e),
        };
        let user = match self.create_user_at(request.requested_name.as_str(), Role::Member, at) {
            Ok(u) => u,
            Err(e) => return Err(e),
        };
        let ghost made = self.state();
        proof {
            lemma_begun_is_undone(st, user@, invite@, at.stamp@);
        }
        match self.apply_invite_grants(&invite, user.id.as_str(), at) {
            Ok(()) => {},
            Err(e) => {
                let _ = self.store.delete_user(user.id.as_str());
                return Err(e);
            },
        }
        proof {
            lemma_granting_keeps_requests(
                made,
                invite@.store_grants,
                invite@.store_grants.len() as int,
                user@.id,
                invite@.created_by,
                at.stamp@,
            );
        }
        match self.store.try_decide_access_request(
            request_id,
            AccessRequestState::Approved,
            Some(user.id.as_str()),
            at.stamp.as_str(),
        ) {
            Ok(true) => Ok(user),
            Ok(false) => {
                let _ = self.store.delete_user(user.id.as_str());
                Err(Self::not_pending_error(request_id))
            },
            Err(e) => {
                let _ = self.store.delete_user(user.id.as_str());
                Err(e)
            },
        }
    }

    /// Approves a pending request, now.
    pub fn approve_request(&mut self, request_id: &str) -> (r: Result<UserRow, Error>)
        ensures
            exists|at: Moment|
                at.well_formed() && #[trigger] request_approved(
                    old(self).state(),
                    old(self).ready(),
                    old(self).can_undo(),
                    request_id@,
                    at.stamp@,
                    r,
                    final(self).state(),
                ),
            old(self).can_undo() ==> final(self).can_undo(),
            old(self).ready() ==> final(self).ready(),
    {
        let at = Moment::now();
        self.approve_request_at(request_id, &at)
    }

    /// Denies a pending request. No user is made.
    pub fn deny_request_at(&mut self, request_id: &str, at: &Moment) -> (r: Result<(), Error>)
        ensures
            request_denied(
                old(self).state(),
                old(self).ready(),
                request_id@,
                at.stamp@,
                r,
                final(self).state(),
            ),
            old(self).can_undo() ==> final(self).can_undo(),
            old(self).ready() ==> final(self).ready(),
    {
        let request = match self.store.find_access_request(request_id) {
            Ok(Some(q)) => q,
            Ok(None) => {
                return Err(
                    Error::invalid_request(
                        text::concat3("access request '", request_id, "' not found"),
                    ),
                );
            },
            Err(e) => return Err(e),
        };
        if request.state != AccessRequestState::Pending {
            return Err(Self::not_pending_error(request_id));
        }
        match self.store.try_decide_access_request(
            request_id,
            AccessRequestState::Denied,
            None,
            at.stamp.as_str(),
        ) {
            Ok(true) => Ok(()),
            Ok(false) => Err(Self::not_pending_error(request_id)),
            Err(e) => Err(e),
        }
    }

    /// Denies a pending request, now.
    pub fn deny_request(&mut self, request_id: &str) -> (r: Result<(), Error>)
        ensures
            exists|at: Moment|
                at.well_formed() && #[trigger] request_denied(
                    old(self).state(),
                    old(self).ready(),
                    request_id@,
                    at.stamp@,
                    r,
                    final(self).state(),
                ),
            old(self).can_undo() ==> final(self).can_undo(),
            old(self).ready() ==> final(self).ready(),
    {
        let at = Moment::now();
        self.deny_request_at(request_id, &at)
    }

    /// Tells the requester how the request stands. The secret is good for polling only; on
    /// the first poll after the approval a new API key is made and handed out.
    pub fn poll_request_at(&mut self, request_id: &str, presented_secret: &str, at: &Moment) -> (r:
        Result<PollOutcome, Error>)
        ensures
            request_polled(
                old(self).state(),
                old(self).ready(),
                request_id@,
                presented_secret@,
                at.stamp@,
                r,
                final(self).state(),
            ),
            old(self).can_undo() ==> final(self).can_undo(),
            old(self).ready() ==> final(self).ready(),
    {
        let request = match self.store.find_access_request(request_id) {
            Ok(Some(q)) => q,
            Ok(None) => return Err(Error::unauthorized("invalid access request id or secret")),
            Err(e) => return Err(e),
        };
        if !token::verify_secret(presented_secret, request.secret_hash.as_str()) {
            return Err(Error::unauthorized("invalid access request id or secret"));
        }
        match request.state {
            AccessRequestState::Pending => Ok(PollOutcome::Pending),
            AccessRequestState::Denied => Ok(PollOutcome::Denied),
            AccessRequestState::Approved => {
                if request.collected_at.is_some() {
                    return Ok(PollOutcome::AlreadyCollected);
                }
                match self.store.mark_access_request_collected(request_id, at.stamp.as_str()) {
                    Ok(true) => {},
                    Ok(false) => return Ok(PollOutcome::AlreadyCollected),
                    Err(e) => return Err(e),
                }
                let ghost collected = self.state();
                match &request.resulting_user_id {
                    Some(user) => match self.issue_api_key_at(user.as_str(), at) {
                        Ok(issued) => {
                            assert(self.state() == collected.adding_token(issued.row@));
                            Ok(PollOutcome::Approved { credential: issued.secret })
                        },
                        Err(e) => Err(e),
                    },
                    None => Err(
                        Error::Internal {
                            message: text::concat3(
                                "access request '",
                                request_id,
                                "' is approved but has no resulting_user_id",
                            ),
                            correlation_id: "poll_request_missing_resulting_user".to_owned(),
                        },
                    ),
                }
            },
        }
    }

    /// Tells the requester how the request stands, now.
    pub fn poll_request(&mut self, request_id: &str, presented_secret: &str) -> (r: Result<
        PollOutcome,
        Error,
    >)
        ensures
            exists|at: Moment|
                at.well_formed() && #[trigger] request_polled(
                    old(self).state(),
                    old(self).ready(),
                    request_id@,
                    presented_secret@,
                    at.stamp@,
                    r,
                    final(self).state(),
                ),
            old(self).can_undo() ==> final(self).can_undo(),
            old(self).ready() ==> final(self).ready(),
    {
        let at = Moment::now();
        self.poll_request_at(request_id, presented_secret, &at)
    }
}

// ---------------------------------------------------------------------------
// Lemmas and laws
// ---------------------------------------------------------------------------
proof fn lemma_use_taken(st: store::AuthState, id: Seq<char>)
    requires
        has_use(st, id),
    ensures
        uses_are_capped(st) ==> uses_are_capped(st.taking_use(id)),
        st.taking_use(id).returning_use(id) == st,
{
    let p = tables::invite_id_is(id);
    lists::lemma_first_from(st.invites, p, 0);
    let k = lists::first_from(st.invites, p, 0)->0;
    let t = st.taking_use(id);
    lists::lemma_first_from(t.invites, p, 0);
    assert(p(t.invites[k]));
    let m = lists::first_from(t.invites, p, 0)->0;
    if m < k {
        assert(t.invites[m] == st.invites[m]);
        assert(!p(st.invites[m]));
    }
    assert(t.returning_use(id).invites =~= st.invites);
    assert(t.returning_use(id) =~= st);
    if uses_are_capped(st) {
        assert forall|i: int| 0 <= i < t.invites.len() implies (#[trigger] t.invites[i]).uses
            <= t.invites[i].max_uses by {
            assert(st.invites[i].uses <= st.invites[i].max_uses);
        }
    }
}

proof fn lemma_use_returned(st: store::AuthState, id: Seq<char>)
    ensures
        uses_are_capped(st) ==> uses_are_capped(st.returning_use(id)),
{
    let p = tables::invite_id_is(id);
    lists::lemma_first_from(st.invites, p, 0);
    let t = st.returning_use(id);
    if uses_are_capped(st) {
        assert forall|i: int| 0 <= i < t.invites.len() implies (#[trigger] t.invites[i]).uses
            <= t.invites[i].max_uses by {
            assert(st.invites[i].uses <= st.invites[i].max_uses);
        }
    }
}

/// Giving back the use that a failed redemption took leaves nothing of it.
proof fn lemma_use_returned_undoes(st: store::AuthState, begun: store::AuthState, id: Seq<char>)
    requires
        has_use(st, id),
        begun.invites == st.taking_use(id).invites,
    ensures
        begun.returning_use(id).invites == st.invites,
        undone(st.taking_use(id), begun) ==> undone(st, begun.returning_use(id)),
{
    let used = st.taking_use(id);
    lemma_use_taken(st, id);
    assert(used.returning_use(id).invites == begun.returning_use(id).invites);
    if undone(used, begun) && begun != used {
        let user = choose|user: Seq<char>| user.len() == 26 && begun == #[trigger] used.scrubbed(user);
        assert(begun.returning_use(id) == st.scrubbed(user));
    }
}

/// Deleting a user that was just made, with some of its grants, leaves nothing of it.
proof fn lemma_begun_is_undone(
    st: store::AuthState,
    u: rows::UserView,
    inv: rows::InviteView,
    stamp: Seq<char>,
)
    ensures
        forall|n: int|
            (#[trigger] granting_first(
                st.adding_user(u),
                inv.store_grants,
                n,
                u.id,
                inv.created_by,
                stamp,
            )).without_user(u.id) == st.scrubbed(u.id),
        forall|n: int|
            (#[trigger] granting_first(
                st.adding_user(u),
                inv.store_grants,
                n,
                u.id,
                inv.created_by,
                stamp,
            )).user(u.id) is Some,
{
    let made = st.adding_user(u);
    let p = tables::user_id_is(u.id);
    assert forall|n: int| true implies {
        let g = #[trigger] granting_first(made, inv.store_grants, n, u.id, inv.created_by, stamp);
        g.without_user(u.id) == st.scrubbed(u.id) && g.user(u.id) is Some
    } by {
        let g = granting_first(made, inv.store_grants, n, u.id, inv.created_by, stamp);
        lemma_granting_scrubs(made, inv.store_grants, n, u.id, inv.created_by, stamp);
        lists::lemma_first_from(g.users, p, 0);
        assert(p(g.users[st.users.len() as int]));
        lists::lemma_filter_push(st.users, u, tables::user_id_is_not(u.id));
        assert(made.scrubbed(u.id) =~= st.scrubbed(u.id));
    }
}

/// Grants to a user go when the user does.
proof fn lemma_granting_scrubs(
    st: store::AuthState,
    names: Seq<Seq<char>>,
    n: int,
    user: Seq<char>,
    by: Seq<char>,
    stamp: Seq<char>,
)
    ensures
        granting_first(st, names, n, user, by, stamp).scrubbed(user) == st.scrubbed(user),
        granting_first(st, names, n, user, by, stamp).users == st.users,
    decreases n,
{
    if n > 0 {
        lemma_granting_scrubs(st, names, n - 1, user, by, stamp);
        let before = granting_first(st, names, n - 1, user, by, stamp);
        let g = super::grants::grant_of(names[n - 1], user, by, stamp);
        let weak = tables::grant_other_than(g.store_name, user);
        let strong = tables::grant_not_to(user);
        lists::lemma_filter_twice(before.grants, weak, strong);
        lists::lemma_filter_push(before.grants.filter(weak), g, strong);
        assert(before.granting(g).scrubbed(user) =~= before.scrubbed(user));
    }
}

/// Taking back a user whose id nothing bore leaves the store as it was.
pub proof fn undoing_leaves_nothing(st: store::AuthState, id: Seq<char>)
    requires
        forall|i: int| 0 <= i < st.users.len() ==> (#[trigger] st.users[i]).id != id,
        forall|i: int| 0 <= i < st.tokens.len() ==> (#[trigger] st.tokens[i]).user_id != id,
        forall|i: int| 0 <= i < st.grants.len() ==> (#[trigger] st.grants[i]).user_id != id,
        forall|i: int|
            0 <= i < st.requests.len() ==> (#[trigger] st.requests[i]).resulting_user_id != Some(id),
    ensures
        st.scrubbed(id) == st,
{
    lists::lemma_filter_all(st.users, tables::user_id_is_not(id));
    lists::lemma_filter_all(st.tokens, tables::token_not_of(id));
    lists::lemma_filter_all(st.grants, tables::grant_not_to(id));
    assert(st.scrubbed(id).requests =~= st.requests);
}

/// A failed redemption burns no use where the store can undo, and no more than the one use
/// that it took where it cannot.
pub proof fn failed_redemptions_burn_no_use(
    st: store::AuthState,
    ready: bool,
    can_undo: bool,
    hash: Seq<char>,
    name: Seq<char>,
    now: Seq<char>,
    stamp: Seq<char>,
    r: Result<RedeemOutcome, Error>,
    after: store::AuthState,
)
    requires
        invite_redeemed(st, ready, can_undo, hash, name, now, stamp, r, after),
        r is Err,
    ensures
        can_undo ==> after.invites == st.invites,
        after.invites == st.invites || after.invites == st.taking_use(
            st.invite_with(hash)->0.id,
        ).invites,
{
}

proof fn lemma_granting_keeps_requests(
    st: store::AuthState,
    names: Seq<Seq<char>>,
    n: int,
    user: Seq<char>,
    by: Seq<char>,
    stamp: Seq<char>,
)
    ensures
        granting_first(st, names, n, user, by, stamp).requests == st.requests,
    decreases n,
{
    if n > 0 {
        lemma_granting_keeps_requests(st, names, n - 1, user, by, stamp);
    }
}

/// A credential is handed out once: after the poll that got it, every poll with the secret
/// of the request is told that it was collected.
pub proof fn credentials_are_handed_out_once(
    st: store::AuthState,
    ready: bool,
    id: Seq<char>,
    secret: Seq<char>,
    stamp: Seq<char>,
    r: Result<PollOutcome, Error>,
    after: store::AuthState,
    later: Seq<char>,
    again: Result<PollOutcome, Error>,
    last: store::AuthState,
)
    requires
        request_polled(st, ready, id, secret, stamp, r, after),
        r matches Ok(PollOutcome::Approved { .. }),
        request_polled(after, true, id, secret, later, again, last),
    ensures
        again matches Ok(PollOutcome::AlreadyCollected),
        last == after,
{
    let p = tables::request_id_is(id);
    lists::lemma_first_from(st.requests, p, 0);
    let k = lists::first_from(st.requests, p, 0)->0;
    lists::lemma_first_from(after.requests, p, 0);
    assert(p(after.requests[k]));
    let m = lists::first_from(after.requests, p, 0)->0;
    if m < k {
        assert(after.requests[m] == st.requests[m]);
        assert(!p(st.requests[m]));
    }
}

/// An unknown request and a wrong secret cannot be told apart.
pub proof fn polling_does_not_tell_which_requests_exist(
    st: store::AuthState,
    id_a: Seq<char>,
    secret_a: Seq<char>,
    stamp_a: Seq<char>,
    a: Result<PollOutcome, Error>,
    after_a: store::AuthState,
    id_b: Seq<char>,
    secret_b: Seq<char>,
    stamp_b: Seq<char>,
    b: Result<PollOutcome, Error>,
    after_b: store::AuthState,
)
    requires
        request_polled(st, true, id_a, secret_a, stamp_a, a, after_a),
        request_polled(st, true, id_b, secret_b, stamp_b, b, after_b),
        st.request(id_a) is None,
        st.request(id_b) matches Some(q) && token::secret_hash(secret_b) != q.secret_hash,
    ensures
        a is Err,
        b is Err,
        a->Err_0@ == b->Err_0@,
        after_a == st,
        after_b == st,
{
}

proof fn lemma_granting_keeps_tokens(
    st: store::AuthState,
    names: Seq<Seq<char>>,
    n: int,
    user: Seq<char>,
    by: Seq<char>,
    stamp: Seq<char>,
)
    ensures
        granting_first(st, names, n, user, by, stamp).tokens == st.tokens,
    decreases n,
{
    if n > 0 {
        lemma_granting_keeps_tokens(st, names, n - 1, user, by, stamp);
    }
}

/// Filing a request makes no token: the secret that is handed out authenticates nobody who was
/// not authenticated by it before.
pub proof fn filing_makes_no_token(
    st: store::AuthState,
    ready: bool,
    can_undo: bool,
    hash: Seq<char>,
    name: Seq<char>,
    now: Seq<char>,
    stamp: Seq<char>,
    r: Result<RedeemOutcome, Error>,
    after: store::AuthState,
)
    requires
        invite_redeemed(st, ready, can_undo, hash, name, now, stamp, r, after),
        r matches Ok(RedeemOutcome::Closed { .. }),
    ensures
        after.tokens == st.tokens,
{
}

/// Deciding a request makes no token: the credential is made by the first poll after it.
pub proof fn deciding_makes_no_token(
    st: store::AuthState,
    ready: bool,
    can_undo: bool,
    id: Seq<char>,
    stamp: Seq<char>,
    approval: Result<UserRow, Error>,
    approved: store::AuthState,
    denial: Result<(), Error>,
    denied: store::AuthState,
)
    requires
        request_approved(st, ready, can_undo, id, stamp, approval, approved),
        request_denied(st, ready, id, stamp, denial, denied),
    ensures
        approval is Ok ==> approved.tokens == st.tokens,
        denied.tokens == st.tokens,
{
    if approval is Ok {
        let q = st.request(id)->0;
        let inv = st.invite(q.invite_id)->0;
        lemma_granting_keeps_tokens(
            st.adding_user(approval->Ok_0@),
            inv.store_grants,
            inv.store_grants.len() as int,
            approval->Ok_0@.id,
            inv.created_by,
            stamp,
        );
    }
}

/// The secret of a request is good for polling only. If it is no token's secret before a poll,
/// it does not authenticate after it either, whatever the poll handed out; and a credential
/// that is handed out is another secret. The two digests must differ.
pub proof fn request_secrets_do_not_authenticate(
    st: store::AuthState,
    ready: bool,
    id: Seq<char>,
    secret: Seq<char>,
    stamp: Seq<char>,
    r: Result<PollOutcome, Error>,
    after: store::AuthState,
    now: Seq<char>,
)
    requires
        request_polled(st, ready, id, secret, stamp, r, after),
        st.token_with(token::secret_hash(secret)) is None,
        r is Ok,
        r matches Ok(PollOutcome::Approved { credential }) ==> token::secret_hash(credential@)
            != token::secret_hash(secret),
    ensures
        service::bearer_refusal(after, token::secret_hash(secret), now) == Some(
            "invalid bearer token"@,
        ),
        r matches Ok(PollOutcome::Approved { credential }) ==> credential@ != secret,
{
    let p = tables::token_hash_is(token::secret_hash(secret));
    lists::lemma_first_from(st.tokens, p, 0);
    lists::lemma_first_from(after.tokens, p, 0);
    if let Ok(PollOutcome::Approved { credential }) = &r {
        let q = st.request(id)->0;
        let collected = st.collecting_request(id, stamp);
        let t = choose|t: IssuedToken|
            t.secret@ == credential@ && service::is_issued(
                t,
                q.resulting_user_id->0,
                super::rows::TokenKind::ApiKey,
                None,
                stamp,
            ) && after == #[trigger] collected.adding_token(t.row@);
        assert(after.tokens =~= st.tokens.push(t.row@));
        if let Some(k) = lists::first_from(after.tokens, p, 0) {
            if k < st.tokens.len() {
                assert(after.tokens[k] == st.tokens[k]);
                assert(!p(st.tokens[k]));
            }
        }
    } else {
        assert(after.tokens == st.tokens);
    }
}

} // verus!
