//! The rows and settings of a storage backend.

use crate::ingestion::records::Metadata;
use crate::types::StoreVisibility;
use vstd::prelude::*;

verus! {

/// Where a backend keeps its data.
#[derive(Debug, Clone, PartialEq, Eq)]
pub enum StoreBackendConnection {
    LocalPath(String),
    Url(String),
}

/// How vectors are stored.
#[derive(Debug, Clone, Copy, PartialEq, Eq, Structural)]
pub enum VectorEncoding {
    Float32,
    Int8,
    Binary,
}

/// Settings of a backend.
#[derive(Debug, Clone, PartialEq, Eq)]
pub struct StoreBackendConfig {
    pub connection: StoreBackendConnection,
    /// Dimension of the vectors.
    pub embedding_dim: usize,
    pub encoding: VectorEncoding,
}

impl StoreBackendConfig {
    /// A backend that keeps its data in a local file or directory.
    pub fn local_path(path: String, embedding_dim: usize, encoding: VectorEncoding) -> (r: Self)
        ensures
            r.connection == StoreBackendConnection::LocalPath(path),
            r.embedding_dim == embedding_dim,
            r.encoding == encoding,
    {
        StoreBackendConfig {
            connection: StoreBackendConnection::LocalPath(path),
            embedding_dim,
            encoding,
        }
    }
}

/// A store as a backend keeps it.
#[derive(Debug, Clone, PartialEq)]
pub struct StoreRow {
    pub id: String,
    pub name: String,
    pub visibility: StoreVisibility,
    pub backend: String,
    pub indexing_policy: String,
    pub policy_version: String,
    pub acl: String,
    pub created_at: String,
}

/// What a source is.
#[derive(Debug, Clone, Copy, PartialEq, Eq, Structural)]
pub enum SourceKind {
    Path,
    Url,
    Feed,
}

/// A source as a backend keeps it.
#[derive(Debug, Clone, PartialEq)]
pub struct SourceRow {
    pub id: String,
    pub store_id: String,
    pub kind: SourceKind,
    pub root: Option<String>,
    pub url: Option<String>,
    pub include_globs: Vec<String>,
    pub exclude_globs: Vec<String>,
    pub preset: String,
    pub refresh: Option<String>,
    pub created_at: String,
}

/// What a backend knows of a document.
#[derive(Debug, Clone, PartialEq)]
pub struct DocumentInfo {
    pub store_id: String,
    pub id: String,
    pub source_id: String,
    pub source_kind: String,
    pub uri: String,
    pub title: Option<String>,
    pub mime: Option<String>,
    pub content_hash: String,
    pub fetched_at: String,
    pub origin_store: String,
    pub policy_version: String,
    pub metadata: Metadata,
}

} // verus!
