//! The rows that an auth store keeps.

use super::principal::Role;
use crate::text;
use vstd::prelude::*;

verus! {

/// What a bearer secret is for.
#[derive(Debug, Clone, Copy, PartialEq, Eq, Structural)]
pub enum TokenKind {
    Access,
    Refresh,
    ApiKey,
}

/// Whether redeeming an invite needs an admin's approval.
#[derive(Debug, Clone, Copy, PartialEq, Eq, Structural)]
pub enum InviteMode {
    /// Redeeming creates a user at once.
    Open,
    /// Redeeming files a request that an admin decides.
    Closed,
}

/// State of a request to be let in.
#[derive(Debug, Clone, Copy, PartialEq, Eq, Structural)]
pub enum AccessRequestState {
    Pending,
    Approved,
    Denied,
}

/// A user account. There are no passwords: identity is proven by bearer secrets.
#[derive(Debug, Clone, PartialEq, Eq)]
pub struct UserRow {
    pub id: String,
    pub name: String,
    pub role: Role,
    pub created_at: String,
}

/// [`UserRow`] as a mathematical value.
#[verifier::ext_equal]
pub struct UserView {
    pub id: Seq<char>,
    pub name: Seq<char>,
    pub role: Role,
    pub created_at: Seq<char>,
}

impl View for UserRow {
    type V = UserView;

    open spec fn view(&self) -> UserView {
        UserView {
            id: self.id@,
            name: self.name@,
            role: self.role,
            created_at: self.created_at@,
        }
    }
}

impl UserRow {
    /// A row with the same content.
    pub fn copied(&self) -> (r: Self)
        ensures
            r@ == self@,
    {
        UserRow {
            id: self.id.clone(),
            name: self.name.clone(),
            role: self.role,
            created_at: self.created_at.clone(),
        }
    }
}

/// A bearer token or API key. Only the digest of its secret is kept.
#[derive(Debug, Clone, PartialEq, Eq)]
pub struct AuthTokenRow {
    pub id: String,
    pub user_id: String,
    pub kind: TokenKind,
    pub secret_hash: String,
    pub expires_at: Option<String>,
    pub last_used_at: Option<String>,
    pub revoked_at: Option<String>,
    pub created_at: String,
    pub family_id: Option<String>,
    pub rotated_from: Option<String>,
}

/// [`AuthTokenRow`] as a mathematical value.
#[verifier::ext_equal]
pub struct TokenView {
    pub id: Seq<char>,
    pub user_id: Seq<char>,
    pub kind: TokenKind,
    pub secret_hash: Seq<char>,
    pub expires_at: Option<Seq<char>>,
    pub last_used_at: Option<Seq<char>>,
    pub revoked_at: Option<Seq<char>>,
    pub created_at: Seq<char>,
    pub family_id: Option<Seq<char>>,
    pub rotated_from: Option<Seq<char>>,
}

impl View for AuthTokenRow {
    type V = TokenView;

    open spec fn view(&self) -> TokenView {
        TokenView {
            id: self.id@,
            user_id: self.user_id@,
            kind: self.kind,
            secret_hash: self.secret_hash@,
            expires_at: text::opt_view(self.expires_at),
            last_used_at: text::opt_view(self.last_used_at),
            revoked_at: text::opt_view(self.revoked_at),
            created_at: self.created_at@,
            family_id: text::opt_view(self.family_id),
            rotated_from: text::opt_view(self.rotated_from),
        }
    }
}

impl AuthTokenRow {
    /// A row with the same content.
    pub fn copied(&self) -> (r: Self)
        ensures
            r@ == self@,
    {
        AuthTokenRow {
            id: self.id.clone(),
            user_id: self.user_id.clone(),
            kind: self.kind,
            secret_hash: self.secret_hash.clone(),
            expires_at: text::clone_opt(&self.expires_at),
            last_used_at: text::clone_opt(&self.last_used_at),
            revoked_at: text::clone_opt(&self.revoked_at),
            created_at: self.created_at.clone(),
            family_id: text::clone_opt(&self.family_id),
            rotated_from: text::clone_opt(&self.rotated_from),
        }
    }
}

/// An authorization code: single-use, and bound to client, redirect and PKCE challenge.
#[derive(Debug, Clone, PartialEq, Eq)]
pub struct AuthCodeRow {
    pub id: String,
    pub client_id: String,
    pub user_id: String,
    pub code_hash: String,
    pub code_challenge: String,
    pub code_challenge_method: String,
    pub redirect_uri: String,
    pub expires_at: String,
    pub consumed_at: Option<String>,
    pub created_at: String,
}

/// [`AuthCodeRow`] as a mathematical value.
#[verifier::ext_equal]
pub struct CodeView {
    pub id: Seq<char>,
    pub client_id: Seq<char>,
    pub user_id: Seq<char>,
    pub code_hash: Seq<char>,
    pub code_challenge: Seq<char>,
    pub code_challenge_method: Seq<char>,
    pub redirect_uri: Seq<char>,
    pub expires_at: Seq<char>,
    pub consumed_at: Option<Seq<char>>,
    pub created_at: Seq<char>,
}

impl View for AuthCodeRow {
    type V = CodeView;

    open spec fn view(&self) -> CodeView {
        CodeView {
            id: self.id@,
            client_id: self.client_id@,
            user_id: self.user_id@,
            code_hash: self.code_hash@,
            code_challenge: self.code_challenge@,
            code_challenge_method: self.code_challenge_method@,
            redirect_uri: self.redirect_uri@,
            expires_at: self.expires_at@,
            consumed_at: text::opt_view(self.consumed_at),
            created_at: self.created_at@,
        }
    }
}

impl AuthCodeRow {
    /// A row with the same content.
    pub fn copied(&self) -> (r: Self)
        ensures
            r@ == self@,
    {
        AuthCodeRow {
            id: self.id.clone(),
            client_id: self.client_id.clone(),
            user_id: self.user_id.clone(),
            code_hash: self.code_hash.clone(),
            code_challenge: self.code_challenge.clone(),
            code_challenge_method: self.code_challenge_method.clone(),
            redirect_uri: self.redirect_uri.clone(),
            expires_at: self.expires_at.clone(),
            consumed_at: text::clone_opt(&self.consumed_at),
            created_at: self.created_at.clone(),
        }
    }
}

/// A registered public client. Its redirect URIs are matched exactly.
#[derive(Debug, Clone, PartialEq, Eq)]
pub struct OAuthClientRow {
    pub id: String,
    pub client_name: Option<String>,
    pub redirect_uris: Vec<String>,
    pub created_at: String,
}

/// [`OAuthClientRow`] as a mathematical value.
#[verifier::ext_equal]
pub struct ClientView {
    pub id: Seq<char>,
    pub client_name: Option<Seq<char>>,
    pub redirect_uris: Seq<Seq<char>>,
    pub created_at: Seq<char>,
}

impl View for OAuthClientRow {
    type V = ClientView;

    open spec fn view(&self) -> ClientView {
        ClientView {
            id: self.id@,
            client_name: text::opt_view(self.client_name),
            redirect_uris: text::views(self.redirect_uris@),
            created_at: self.created_at@,
        }
    }
}

impl OAuthClientRow {
    /// A row with the same content.
    pub fn copied(&self) -> (r: Self)
        ensures
            r@ == self@,
    {
        OAuthClientRow {
            id: self.id.clone(),
            client_name: text::clone_opt(&self.client_name),
            redirect_uris: text::clone_strings(&self.redirect_uris),
            created_at: self.created_at.clone(),
        }
    }
}

/// A member's access to one store.
#[derive(Debug, Clone, PartialEq, Eq)]
pub struct StoreGrantRow {
    pub store_name: String,
    pub user_id: String,
    pub granted_by: String,
    pub created_at: String,
}

/// [`StoreGrantRow`] as a mathematical value.
#[verifier::ext_equal]
pub struct GrantView {
    pub store_name: Seq<char>,
    pub user_id: Seq<char>,
    pub granted_by: Seq<char>,
    pub created_at: Seq<char>,
}

impl View for StoreGrantRow {
    type V = GrantView;

    open spec fn view(&self) -> GrantView {
        GrantView {
            store_name: self.store_name@,
            user_id: self.user_id@,
            granted_by: self.granted_by@,
            created_at: self.created_at@,
        }
    }
}

impl StoreGrantRow {
    /// A row with the same content.
    pub fn copied(&self) -> (r: Self)
        ensures
            r@ == self@,
    {
        StoreGrantRow {
            store_name: self.store_name.clone(),
            user_id: self.user_id.clone(),
            granted_by: self.granted_by.clone(),
            created_at: self.created_at.clone(),
        }
    }
}

/// An invite to become a user.
#[derive(Debug, Clone, PartialEq, Eq)]
pub struct InviteRow {
    pub id: String,
    pub token_hash: String,
    pub mode: InviteMode,
    pub store_grants: Vec<String>,
    pub max_uses: u32,
    pub uses: u32,
    pub expires_at: Option<String>,
    pub revoked_at: Option<String>,
    pub created_by: String,
    pub created_at: String,
}

/// [`InviteRow`] as a mathematical value.
#[verifier::ext_equal]
pub struct InviteView {
    pub id: Seq<char>,
    pub token_hash: Seq<char>,
    pub mode: InviteMode,
    pub store_grants: Seq<Seq<char>>,
    pub max_uses: u32,
    pub uses: u32,
    pub expires_at: Option<Seq<char>>,
    pub revoked_at: Option<Seq<char>>,
    pub created_by: Seq<char>,
    pub created_at: Seq<char>,
}

impl View for InviteRow {
    type V = InviteView;

    open spec fn view(&self) -> InviteView {
        InviteView {
            id: self.id@,
            token_hash: self.token_hash@,
            mode: self.mode,
            store_grants: text::views(self.store_grants@),
            max_uses: self.max_uses,
            uses: self.uses,
            expires_at: text::opt_view(self.expires_at),
            revoked_at: text::opt_view(self.revoked_at),
            created_by: self.created_by@,
            created_at: self.created_at@,
        }
    }
}

impl InviteRow {
    /// A row with the same content.
    pub fn copied(&self) -> (r: Self)
        ensures
            r@ == self@,
    {
        InviteRow {
            id: self.id.clone(),
            token_hash: self.token_hash.clone(),
            mode: self.mode,
            store_grants: text::clone_strings(&self.store_grants),
            max_uses: self.max_uses,
            uses: self.uses,
            expires_at: text::clone_opt(&self.expires_at),
            revoked_at: text::clone_opt(&self.revoked_at),
            created_by: self.created_by.clone(),
            created_at: self.created_at.clone(),
        }
    }
}

/// A request to be let in through a closed invite.
#[derive(Debug, Clone, PartialEq, Eq)]
pub struct AccessRequestRow {
    pub id: String,
    pub invite_id: String,
    pub requested_name: String,
    pub secret_hash: String,
    pub state: AccessRequestState,
    pub resulting_user_id: Option<String>,
    pub created_at: String,
    pub decided_at: Option<String>,
    pub collected_at: Option<String>,
}

/// [`AccessRequestRow`] as a mathematical value.
#[verifier::ext_equal]
pub struct RequestView {
    pub id: Seq<char>,
    pub invite_id: Seq<char>,
    pub requested_name: Seq<char>,
    pub secret_hash: Seq<char>,
    pub state: AccessRequestState,
    pub resulting_user_id: Option<Seq<char>>,
    pub created_at: Seq<char>,
    pub decided_at: Option<Seq<char>>,
    pub collected_at: Option<Seq<char>>,
}

impl View for AccessRequestRow {
    type V = RequestView;

    open spec fn view(&self) -> RequestView {
        RequestView {
            id: self.id@,
            invite_id: self.invite_id@,
            requested_name: self.requested_name@,
            secret_hash: self.secret_hash@,
            state: self.state,
            resulting_user_id: text::opt_view(self.resulting_user_id),
            created_at: self.created_at@,
            decided_at: text::opt_view(self.decided_at),
            collected_at: text::opt_view(self.collected_at),
        }
    }
}

impl AccessRequestRow {
    /// A row with the same content.
    pub fn copied(&self) -> (r: Self)
        ensures
            r@ == self@,
    {
        AccessRequestRow {
            id: self.id.clone(),
            invite_id: self.invite_id.clone(),
            requested_name: self.requested_name.clone(),
            secret_hash: self.secret_hash.clone(),
            state: self.state,
            resulting_user_id: text::clone_opt(&self.resulting_user_id),
            created_at: self.created_at.clone(),
            decided_at: text::clone_opt(&self.decided_at),
            collected_at: text::clone_opt(&self.collected_at),
        }
    }
}

} // verus!
