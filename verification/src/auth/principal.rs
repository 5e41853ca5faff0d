//! Identities, roles and the evaluation of store grants.

use crate::error::{Error, ErrorView};
use crate::text;
use crate::types::StoreVisibility;
use vstd::prelude::*;

verus! {

/// A user's role: admins see and manage everything, members are scoped by grants.
#[derive(Debug, Clone, Copy, PartialEq, Eq, Structural)]
pub enum Role {
    Admin,
    Member,
}

/// Which stores a principal may read, apart from its role.
#[derive(Debug, Clone, PartialEq, Eq)]
pub enum StoreAccess {
    /// Every store.
    All,
    /// The stores of these names, if they are shared.
    Granted(Vec<String>),
}

/// The access as a mathematical value.
pub enum AccessView {
    All,
    Granted(Set<Seq<char>>),
}

impl View for StoreAccess {
    type V = AccessView;

    open spec fn view(&self) -> AccessView {
        match *self {
            StoreAccess::All => AccessView::All,
            StoreAccess::Granted(v) => AccessView::Granted(text::views(v@).to_set()),
        }
    }
}

/// The identity behind a request.
#[derive(Debug, Clone, PartialEq, Eq)]
pub struct Principal {
    pub user_id: String,
    pub name: String,
    pub role: Role,
    pub access: StoreAccess,
}

/// A principal as a mathematical value.
pub struct PrincipalView {
    pub user_id: Seq<char>,
    pub name: Seq<char>,
    pub role: Role,
    pub access: AccessView,
}

impl View for Principal {
    type V = PrincipalView;

    open spec fn view(&self) -> PrincipalView {
        PrincipalView {
            user_id: self.user_id@,
            name: self.name@,
            role: self.role,
            access: self.access@,
        }
    }
}

impl PrincipalView {
    /// Whether the principal may read a store: an admin every store, a member the shared
    /// stores that it has access to, and never a private one.
    pub open spec fn may_read(self, store: Seq<char>, visibility: StoreVisibility) -> bool {
        self.role == Role::Admin || (visibility == StoreVisibility::Shared && match self.access {
            AccessView::All => true,
            AccessView::Granted(set) => set.contains(store),
        })
    }
}

impl Principal {
    /// The principal where authentication is off: fully trusted.
    pub fn local_trust() -> (r: Self)
        ensures
            r@ == (PrincipalView {
                user_id: "local"@,
                name: "local"@,
                role: Role::Admin,
                access: AccessView::All,
            }),
    {
        Principal {
            user_id: "local".to_owned(),
            name: "local".to_owned(),
            role: Role::Admin,
            access: StoreAccess::All,
        }
    }

    /// Succeeds for admins, and is forbidden for everyone else.
    pub fn require_admin(&self) -> (r: Result<(), Error>)
        ensures
            self.role == Role::Admin ==> r is Ok,
            self.role != Role::Admin ==> r is Err && r->Err_0@ == (ErrorView::Forbidden {
                message: "user '"@ + self.name@ + "' is not an admin"@,
            }),
    {
        if self.role == Role::Admin {
            Ok(())
        } else {
            Err(
                Error::Forbidden {
                    message: text::concat3("user '", self.name.as_str(), "' is not an admin"),
                },
            )
        }
    }

    /// Whether this principal may read a store of the given name and visibility.
    pub fn can_read_store(&self, store_name: &str, visibility: StoreVisibility) -> (r: bool)
        ensures
            r == self@.may_read(store_name@, visibility),
    {
        match self.role {
            Role::Admin => true,
            Role::Member => match visibility {
                StoreVisibility::Private => false,
                StoreVisibility::Shared => match &self.access {
                    StoreAccess::All => true,
                    StoreAccess::Granted(names) => text::strings_contain(names, store_name),
                },
            },
        }
    }
}

/// Private stores are for admins only, whatever was granted.
pub proof fn private_stores_are_admin_only(p: PrincipalView, store: Seq<char>)
    ensures
        p.may_read(store, StoreVisibility::Private) <==> p.role == Role::Admin,
{
}

} // verus!
