//! Authentication and authorization: secrets, identities, grants, and the policy over the
//! store that keeps them.

pub mod client;
pub mod codes;
pub mod grants;
pub mod invites;
pub mod laws;
pub mod principal;
pub mod rows;
pub mod service;
pub mod state_laws;
pub mod store;
pub mod tables;
pub mod token;

pub use principal::{Principal, Role, StoreAccess};
pub use rows::{
    AccessRequestRow, AccessRequestState, AuthTokenRow, InviteMode, InviteRow, StoreGrantRow,
    TokenKind, UserRow,
};
pub use service::{AuthService, IssuedInvite, IssuedToken};
pub use store::{AuthStore, FakeAuthStore};
pub use token::{
    hash_secret, is_expired, mint_secret, rfc3339_from_now, verify_pkce_s256, verify_secret,
    MintedSecret, ACCESS_TOKEN_TTL_SECS, REFRESH_TOKEN_TTL_SECS, TOKEN_PREFIX,
};
