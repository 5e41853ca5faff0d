//! Configuration.
//!
//! A file declares stores, sources and policies; others are created at run time. What the
//! file declares goes first, and cannot be changed at run time.

pub mod effective;
pub mod laws;
pub mod loader;
pub mod overrides;
pub mod platform;
pub mod policy;
pub mod refresh;
pub mod runtime_state;
pub mod schema;

pub use loader::{ConfigLoader, LoadOptions};
pub use platform::PlatformPaths;
pub use policy::compute_policy_version;
pub use refresh::validate_refresh_interval;
pub use schema::{
    ChunkingPolicy, DefaultsConfig, EmbeddingPolicy, IndexingPolicyConfig, PathsConfig,
    ProviderConfig, RawConfig, ServerConfig,
};
