//! The auth policy for stores, roles and clients.

use super::client;
use super::principal::{Principal, Role};
use super::rows;
use super::rows::{OAuthClientRow, StoreGrantRow, UserRow};
use super::service::AuthService;
use super::store;
use super::store::AuthStore;
use super::tables;
use crate::clock::Moment;
use crate::error::{Error, ErrorView};
use crate::ids;
use crate::lists;
use crate::text;
use crate::types::StoreVisibility;
use vstd::prelude::*;

verus! {

/// The error for a grant on a private store.
pub open spec fn ungrantable(store: Seq<char>) -> ErrorView {
    ErrorView::Forbidden {
        message: "store '"@ + store
            + "' is private; private stores are admin-only and cannot be granted"@,
    }
}

/// A grant row.
pub open spec fn grant_of(
    store: Seq<char>,
    user: Seq<char>,
    by: Seq<char>,
    stamp: Seq<char>,
) -> rows::GrantView {
    rows::GrantView { store_name: store, user_id: user, granted_by: by, created_at: stamp }
}

/// Whether every redirect URI may be registered.
pub open spec fn all_registrable(uris: Seq<Seq<char>>) -> bool {
    forall|i: int|
        0 <= i < uris.len() ==> client::may_register(
            #[trigger] uris[i],
            crate::urls::url_parts(uris[i]),
        )
}

/// The error for a redirect URI that may not be registered.
pub open spec fn bad_redirect(uri: Seq<char>) -> ErrorView {
    ErrorView::InvalidRequest {
        message: "redirect_uri '"@ + uri
            + "' is not allowed: must be an https:// URL or a loopback http://127.0.0.1[:port]/... or http://localhost[:port]/... URL"@,
    }
}

/// What granting a store does, from the store before it to the store after it.
pub open spec fn store_granted(
    st: store::AuthState,
    ready: bool,
    visibility: StoreVisibility,
    grant: rows::GrantView,
    r: Result<(), Error>,
    after: store::AuthState,
) -> bool {
    &&& visibility == StoreVisibility::Private ==> r is Err && r->Err_0@ == ungrantable(
        grant.store_name,
    )
    &&& r is Ok ==> after == st.granting(grant)
    &&& r is Err ==> after == st
    &&& ready ==> (r is Ok <==> visibility == StoreVisibility::Shared)
}

/// What registering a client does, from the store before it to the store after it. Of several
/// redirect URIs that are not allowed the first is reported.
pub open spec fn client_registered(
    st: store::AuthState,
    ready: bool,
    uris: Seq<Seq<char>>,
    name: Option<Seq<char>>,
    stamp: Seq<char>,
    r: Result<OAuthClientRow, Error>,
    after: store::AuthState,
) -> bool {
    &&& r matches Ok(c) ==> {
        &&& uris.len() > 0 && all_registrable(uris)
        &&& c@.id.len() == 26
        &&& c@.client_name == name
        &&& c@.redirect_uris == uris
        &&& c@.created_at == stamp
        &&& after == st.adding_client(c@)
    }
    &&& r is Err ==> after == st
    &&& uris.len() == 0 ==> r is Err && r->Err_0@ == (ErrorView::InvalidRequest {
        message: "redirect_uris is required and must not be empty"@,
    })
    &&& uris.len() > 0 && !all_registrable(uris) ==> r is Err && exists|i: int|
        0 <= i < uris.len() && !client::may_register(uris[i], crate::urls::url_parts(uris[i]))
            && all_registrable(uris.take(i)) && r->Err_0@ == #[trigger] bad_redirect(uris[i])
    &&& ready ==> (r is Ok <==> uris.len() > 0 && all_registrable(uris))
}

impl<S: AuthStore> AuthService<S> {
    /// Grants a shared store to a user. Private stores cannot be granted.
    pub fn grant_store_at(
        &mut self,
        store_name: &str,
        store_visibility: StoreVisibility,
        user_id: &str,
        granted_by: &str,
        at: &Moment,
    ) -> (r: Result<(), Error>)
        ensures
            store_granted(
                old(self).state(),
                old(self).ready(),
                store_visibility,
                grant_of(store_name@, user_id@, granted_by@, at.stamp@),
                r,
                final(self).state(),
            ),
            old(self).can_undo() ==> final(self).can_undo(),
            old(self).ready() ==> final(self).ready(),
    {
        if store_visibility == StoreVisibility::Private {
            return Err(
                Error::Forbidden {
                    message: text::concat3(
                        "store '",
                        store_name,
                        "' is private; private stores are admin-only and cannot be granted",
                    ),
                },
            );
        }
        let grant = StoreGrantRow {
            store_name: store_name.to_owned(),
            user_id: user_id.to_owned(),
            granted_by: granted_by.to_owned(),
            created_at: at.stamp.clone(),
        };
        self.store.grant_store(&grant)
    }

    /// Grants a shared store to a user, now.
    pub fn grant_store(
        &mut self,
        store_name: &str,
        store_visibility: StoreVisibility,
        user_id: &str,
        granted_by: &str,
    ) -> (r: Result<(), Error>)
        ensures
            exists|at: Moment|
                at.well_formed() && #[trigger] store_granted(
                    old(self).state(),
                    old(self).ready(),
                    store_visibility,
                    grant_of(store_name@, user_id@, granted_by@, at.stamp@),
                    r,
                    final(self).state(),
                ),
            old(self).can_undo() ==> final(self).can_undo(),
            old(self).ready() ==> final(self).ready(),
    {
        let at = Moment::now();
        self.grant_store_at(store_name, store_visibility, user_id, granted_by, &at)
    }

    /// Takes a grant back. Says whether there was one.
    pub fn revoke_store(&mut self, store_name: &str, user_id: &str) -> (r: Result<bool, Error>)
        ensures
            r is Ok ==> final(self).state() == old(self).state().revoking_grant(
                store_name@,
                user_id@,
            ) && r->Ok_0 == (final(self).state().grants.len() != old(self).state().grants.len()),
            r is Err ==> final(self).state() == old(self).state(),
            old(self).can_undo() ==> final(self).can_undo(),
            old(self).ready() ==> final(self).ready() && r is Ok,
    {
        self.store.revoke_store_grant(store_name, user_id)
    }

    /// Whether the user is the only admin left.
    pub fn is_last_admin(&self, user_id: &str) -> (r: Result<bool, Error>)
        ensures
            r is Ok ==> r->Ok_0 == self.state().is_last_admin(user_id@),
            self.ready() ==> r is Ok,
    {
        let users = match self.store.list_users() {
            Ok(u) => u,
            Err(e) => return Err(e),
        };
        Ok(only_admin(&users, user_id))
    }

    /// Deletes a user with the user's tokens and grants, but not the last admin. Says
    /// whether there was one.
    pub fn delete_user(&mut self, id: &str) -> (r: Result<bool, Error>)
        ensures
            r is Ok && r->Ok_0 ==> !old(self).state().is_last_admin(id@) && final(self).state()
                == old(self).state().without_user(id@),
            r is Err || !r->Ok_0 ==> final(self).state() == old(self).state(),
            old(self).can_undo() ==> final(self).can_undo(),
            old(self).ready() ==> final(self).ready() && match r {
                Ok(b) => !old(self).state().is_last_admin(id@) && b == (old(self).state().user(id@)
                    is Some),
                Err(e) => old(self).state().is_last_admin(id@) && e@ == (
                ErrorView::InvalidRequest {
                    message: "cannot delete the last remaining admin account"@,
                }),
            },
    {
        match self.store.try_delete_user_unless_last_admin(id) {
            Err(e) => Err(e),
            Ok(true) => Ok(true),
            Ok(false) => match self.is_last_admin(id) {
                Err(e) => Err(e),
                Ok(true) => Err(
                    Error::invalid_request(
                        "cannot delete the last remaining admin account".to_owned(),
                    ),
                ),
                Ok(false) => Ok(false),
            },
        }
    }

    /// Changes a user's role, but does not demote the last admin.
    pub fn set_user_role(&mut self, id: &str, role: Role) -> (r: Result<(), Error>)
        ensures
            r is Ok ==> old(self).state().user(id@) is Some && !(role == Role::Member && old(
                self,
            ).state().is_last_admin(id@)) && final(self).state() == old(self).state().setting_role(
                id@,
                role,
            ),
            r is Err ==> final(self).state() == old(self).state(),
            old(self).can_undo() ==> final(self).can_undo(),
            old(self).ready() ==> final(self).ready() && match r {
                Ok(_) => true,
                Err(e) => if role == Role::Member && old(self).state().is_last_admin(id@) {
                    e@ == (ErrorView::InvalidRequest {
                        message: "cannot demote the last remaining admin account"@,
                    })
                } else {
                    old(self).state().user(id@) is None && e@ == store::no_such_user(id@)
                },
            },
    {
        if role == Role::Member {
            match self.store.try_demote_user_unless_last_admin(id) {
                Err(e) => return Err(e),
                Ok(true) => return Ok(()),
                Ok(false) => {},
            }
            match self.is_last_admin(id) {
                Err(e) => return Err(e),
                Ok(true) => {
                    return Err(
                        Error::invalid_request(
                            "cannot demote the last remaining admin account".to_owned(),
                        ),
                    );
                },
                Ok(false) => {},
            }
        }
        self.store.update_user_role(id, role)
    }

    /// Whether a principal may read a store.
    pub fn can_read_store(
        &self,
        principal: &Principal,
        store_name: &str,
        visibility: StoreVisibility,
    ) -> (r: bool)
        ensures
            r == principal@.may_read(store_name@, visibility),
    {
        principal.can_read_store(store_name, visibility)
    }

    /// Whether a client is the built-in one or registered.
    pub fn is_known_client(&self, client_id: &str) -> (r: Result<bool, Error>)
        ensures
            client_id@ == "localdb-cli"@ ==> r == Ok::<bool, Error>(true),
            r is Ok ==> r->Ok_0 == (client_id@ == "localdb-cli"@ || self.state().client(client_id@)
                is Some),
            self.ready() ==> r is Ok,
    {
        if client::is_known_client(client_id) {
            return Ok(true);
        }
        match self.store.find_oauth_client(client_id) {
            Ok(c) => Ok(c.is_some()),
            Err(e) => Err(e),
        }
    }

    /// Whether a client may use a redirect: the built-in one by its own rule, a registered
    /// one exactly those that it registered, an unknown one none.
    pub fn validate_client_redirect_uri(&self, client_id: &str, redirect_uri: &str) -> (r: Result<
        bool,
        Error,
    >)
        ensures
            r is Ok ==> r->Ok_0 == (if client_id@ == "localdb-cli"@ {
                redirect_uri@ == "urn:ietf:wg:oauth:2.0:oob"@ || client::is_loopback(redirect_uri@)
            } else {
                self.state().client(client_id@) matches Some(c) && c.redirect_uris.contains(
                    redirect_uri@,
                )
            }),
            self.ready() ==> r is Ok,
    {
        if client::is_known_client(client_id) {
            return Ok(client::validate_redirect_uri(client_id, redirect_uri));
        }
        match self.store.find_oauth_client(client_id) {
            Ok(Some(c)) => Ok(text::strings_contain(&c.redirect_uris, redirect_uri)),
            Ok(None) => Ok(false),
            Err(e) => Err(e),
        }
    }

    /// Registers a public client with the given redirect URIs, each of which must be allowed.
    pub fn register_client_at(
        &mut self,
        redirect_uris: Vec<String>,
        client_name: Option<String>,
        at: &Moment,
    ) -> (r: Result<OAuthClientRow, Error>)
        ensures
            client_registered(
                old(self).state(),
                old(self).ready(),
                text::views(redirect_uris@),
                text::opt_view(client_name),
                at.stamp@,
                r,
                final(self).state(),
            ),
            old(self).can_undo() ==> final(self).can_undo(),
            old(self).ready() ==> final(self).ready(),
    {
        if redirect_uris.len() == 0 {
            return Err(
                Error::invalid_request(
                    "redirect_uris is required and must not be empty".to_owned(),
                ),
            );
        }
        let mut i: usize = 0;
        while i < redirect_uris.len()
            invariant
                i <= redirect_uris.len(),
                self.state() == old(self).state(),
                self.can_undo() == old(self).can_undo(),
                self.ready() == old(self).ready(),
                forall|j: int|
                    0 <= j < i ==> client::may_register(
                        #[trigger] text::views(redirect_uris@)[j],
                        crate::urls::url_parts(text::views(redirect_uris@)[j]),
                    ),
            decreases redirect_uris.len() - i,
        {
            assert(text::views(redirect_uris@)[i as int] == redirect_uris@[i as int]@);
            if !client::validate_registration_redirect_uri(redirect_uris[i].as_str()) {
                let e = Error::invalid_request(
                    text::concat3(
                        "redirect_uri '",
                        redirect_uris[i].as_str(),
                        "' is not allowed: must be an https:// URL or a loopback http://127.0.0.1[:port]/... or http://localhost[:port]/... URL",
                    ),
                );
                assert(e@ == bad_redirect(text::views(redirect_uris@)[i as int]));
                assert(!all_registrable(text::views(redirect_uris@)));
                return Err(e);
            }
            i += 1;
        }
        assert(all_registrable(text::views(redirect_uris@)));
        let row = OAuthClientRow {
            id: ids::new_ulid(),
            client_name,
            redirect_uris,
            created_at: at.stamp.clone(),
        };
        match self.store.create_oauth_client(&row) {
            Ok(()) => Ok(row),
            Err(e) => Err(e),
        }
    }

    /// Registers a public client, now.
    pub fn register_client(&mut self, redirect_uris: Vec<String>, client_name: Option<String>) -> (r:
        Result<OAuthClientRow, Error>)
        ensures
            exists|at: Moment|
                at.well_formed() && #[trigger] client_registered(
                    old(self).state(),
                    old(self).ready(),
                    text::views(redirect_uris@),
                    text::opt_view(client_name),
                    at.stamp@,
                    r,
                    final(self).state(),
                ),
            old(self).can_undo() ==> final(self).can_undo(),
            old(self).ready() ==> final(self).ready(),
    {
        let at = Moment::now();
        self.register_client_at(redirect_uris, client_name, &at)
    }
}

/// Whether the user is the only admin among the users.
fn only_admin(users: &Vec<UserRow>, user_id: &str) -> (r: bool)
    ensures
        forall|st: store::AuthState|
            st.users == lists::views_of(users@) ==> r == #[trigger] st.is_last_admin(user_id@),
{
    let ghost s = lists::views_of(users@);
    let ghost p = store::is_admin();
    let mut n: usize = 0;
    let mut found = false;
    let mut i: usize = 0;
    proof {
        reveal(Seq::filter);
    }
    while i < users.len()
        invariant
            i <= users.len(),
            n <= i,
            s == lists::views_of(users@),
            p == store::is_admin(),
            n == s.take(i as int).filter(p).len(),
            found == exists|j: int|
                0 <= j < i && (#[trigger] s[j]).id == user_id@ && s[j].role == Role::Admin,
        decreases users.len() - i,
    {
        proof {
            lists::lemma_filter_step(s, p, i as int);
            assert(s[i as int] == users@[i as int]@);
        }
        if users[i].role == Role::Admin {
            n += 1;
            if text::str_eq(users[i].id.as_str(), user_id) {
                found = true;
            }
        }
        i += 1;
    }
    assert(s.take(s.len() as int) =~= s);
    found && n <= 1
}

// ---------------------------------------------------------------------------
// Laws
// ---------------------------------------------------------------------------
/// No two users share an id.
pub open spec fn distinct_users(st: store::AuthState) -> bool {
    forall|i: int, j: int|
        0 <= i < j < st.users.len() ==> (#[trigger] st.users[i]).id != (#[trigger] st.users[j]).id
}

proof fn lemma_filter_some<V>(s: Seq<V>, p: spec_fn(V) -> bool, i: int)
    requires
        0 <= i < s.len(),
        p(s[i]),
    ensures
        s.filter(p).len() >= 1,
    decreases s.len(),
{
    reveal(Seq::filter);
    if i < s.len() - 1 {
        assert(s.drop_last()[i] == s[i]);
        lemma_filter_some(s.drop_last(), p, i);
    }
}

proof fn lemma_filter_witness<V>(s: Seq<V>, p: spec_fn(V) -> bool) -> (i: int)
    requires
        s.filter(p).len() >= 1,
    ensures
        0 <= i < s.len(),
        p(s[i]),
    decreases s.len(),
{
    reveal(Seq::filter);
    if p(s.last()) {
        s.len() - 1
    } else {
        let i = lemma_filter_witness(s.drop_last(), p);
        assert(s.drop_last()[i] == s[i]);
        i
    }
}

proof fn lemma_filter_two<V>(s: Seq<V>, p: spec_fn(V) -> bool) -> (r: (int, int))
    requires
        s.filter(p).len() >= 2,
    ensures
        0 <= r.0 < r.1 < s.len(),
        p(s[r.0]),
        p(s[r.1]),
    decreases s.len(),
{
    reveal(Seq::filter);
    if p(s.last()) {
        let i = lemma_filter_witness(s.drop_last(), p);
        assert(s.drop_last()[i] == s[i]);
        (i, s.len() - 1)
    } else {
        let (i, j) = lemma_filter_two(s.drop_last(), p);
        assert(s.drop_last()[i] == s[i]);
        assert(s.drop_last()[j] == s[j]);
        (i, j)
    }
}

proof fn lemma_filter_keeps<V>(s: Seq<V>, p: spec_fn(V) -> bool, i: int) -> (k: int)
    requires
        0 <= i < s.len(),
        p(s[i]),
    ensures
        0 <= k < s.filter(p).len(),
        s.filter(p)[k] == s[i],
    decreases s.len(),
{
    reveal(Seq::filter);
    if i == s.len() - 1 {
        s.filter(p).len() - 1
    } else {
        assert(s.drop_last()[i] == s[i]);
        lemma_filter_keeps(s.drop_last(), p, i)
    }
}

/// Deleting a user who is not the last admin leaves an admin where there was one.
pub proof fn guarded_deletion_leaves_an_admin(st: store::AuthState, id: Seq<char>)
    requires
        distinct_users(st),
        st.admins() >= 1,
        !st.is_last_admin(id),
    ensures
        st.without_user(id).admins() >= 1,
{
    let p = store::is_admin();
    let q = tables::user_id_is_not(id);
    let k = if st.has_admin(id) {
        let (i, j) = lemma_filter_two(st.users, p);
        if st.users[i].id == id {
            j
        } else {
            i
        }
    } else {
        lemma_filter_witness(st.users, p)
    };
    if st.user(id) is Some {
        let n = lemma_filter_keeps(st.users, q, k);
        lemma_filter_some(st.users.filter(q), p, n);
    }
}

/// Changing the role of a user who is not the last admin, or making anyone an admin, leaves
/// an admin where there was one.
pub proof fn guarded_role_change_leaves_an_admin(st: store::AuthState, id: Seq<char>, role: Role)
    requires
        distinct_users(st),
        st.admins() >= 1,
        role == Role::Admin || !st.is_last_admin(id),
    ensures
        st.setting_role(id, role).admins() >= 1,
{
    let p = store::is_admin();
    let m = lists::first_from(st.users, tables::user_id_is(id), 0);
    lists::lemma_first_from(st.users, tables::user_id_is(id), 0);
    if let Some(x) = m {
        let after = st.setting_role(id, role).users;
        assert(after == st.users.update(x, store::with_role(role)(st.users[x])));
        if role == Role::Admin {
            assert(after[x].role == Role::Admin);
            lemma_filter_some(after, p, x);
        } else {
            let k = if st.has_admin(id) {
                let (i, j) = lemma_filter_two(st.users, p);
                if i == x {
                    j
                } else {
                    i
                }
            } else {
                lemma_filter_witness(st.users, p)
            };
            if k == x {
                assert(st.users[x].id == id && st.users[x].role == Role::Admin);
            }
            assert(after[k] == st.users[k]);
            lemma_filter_some(after, p, k);
        }
    }
}

/// A store that was granted to a member is one that the member may read, if it is shared;
/// one whose grant was taken back is not.
pub proof fn grants_decide_what_members_read(
    st: store::AuthState,
    u: rows::UserView,
    store_name: Seq<char>,
)
    requires
        u.role == Role::Member,
    ensures
        super::service::principal_of(st, u).may_read(store_name, StoreVisibility::Shared)
            <==> exists|i: int|
            0 <= i < st.grants.len() && (#[trigger] st.grants[i]).user_id == u.id
                && st.grants[i].store_name == store_name,
{
    let p = tables::grant_to(u.id);
    let gs = st.grants.filter(p);
    let names = super::service::granted_names(gs);
    if names.to_set().contains(store_name) {
        let k = choose|k: int| 0 <= k < names.len() && names[k] == store_name;
        let i = lemma_filter_origin(st.grants, p, k);
        assert(st.grants[i].store_name == store_name);
    }
    if exists|i: int|
        0 <= i < st.grants.len() && (#[trigger] st.grants[i]).user_id == u.id
            && st.grants[i].store_name == store_name {
        let i = choose|i: int|
            0 <= i < st.grants.len() && (#[trigger] st.grants[i]).user_id == u.id
                && st.grants[i].store_name == store_name;
        let k = lemma_filter_keeps(st.grants, p, i);
        assert(names[k] == store_name);
        assert(names.contains(store_name));
    }
}

proof fn lemma_filter_origin<V>(s: Seq<V>, p: spec_fn(V) -> bool, k: int) -> (i: int)
    requires
        0 <= k < s.filter(p).len(),
    ensures
        0 <= i < s.len(),
        p(s[i]),
        s[i] == s.filter(p)[k],
    decreases s.len(),
{
    reveal(Seq::filter);
    if p(s.last()) && k == s.filter(p).len() - 1 {
        s.len() - 1
    } else {
        let i = lemma_filter_origin(s.drop_last(), p, k);
        assert(s.drop_last()[i] == s[i]);
        i
    }
}

} // verus!
