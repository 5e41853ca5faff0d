//! The parts of a configuration file.

use super::overrides::PresetOverrides;
use crate::text;
use vstd::prelude::*;

verus! {

/// A configuration file's content.
#[derive(Debug, Clone, PartialEq)]
pub struct RawConfig {
    /// Version of the format.
    pub version: u32,
    pub server: ServerConfig,
    pub paths: PathsConfig,
    pub defaults: DefaultsConfig,
    /// The stores that the file declares.
    pub stores: Vec<StoreConfig>,
    pub providers: Vec<ProviderConfig>,
}

/// Where the server listens.
#[derive(Debug, Clone, PartialEq)]
pub struct ServerConfig {
    pub bind: String,
    pub port: u16,
}

impl Default for ServerConfig {
    /// The loopback interface only.
    fn default() -> (r: Self)
        ensures
            r.bind@ == "127.0.0.1"@,
            r.port == 7700,
    {
        ServerConfig { bind: "127.0.0.1".to_owned(), port: 7700 }
    }
}

/// Directories in place of the platform's.
#[derive(Debug, Clone, PartialEq)]
pub struct PathsConfig {
    pub data: Option<String>,
    pub models: Option<String>,
    pub logs: Option<String>,
}

impl Default for PathsConfig {
    /// The platform's directories.
    fn default() -> (r: Self)
        ensures
            r.data is None,
            r.models is None,
            r.logs is None,
    {
        PathsConfig { data: None, models: None, logs: None }
    }
}

/// What stores inherit.
#[derive(Debug, Clone, PartialEq)]
pub struct DefaultsConfig {
    pub indexing: IndexingPolicyConfig,
}

impl Default for DefaultsConfig {
    fn default() -> (r: Self)
        ensures
            r.indexing@ == PolicyView::standard(),
    {
        DefaultsConfig { indexing: IndexingPolicyConfig::default() }
    }
}

/// How documents are indexed. A store whose policy changes is indexed anew.
#[derive(Debug, Clone, PartialEq)]
pub struct IndexingPolicyConfig {
    pub chunking: ChunkingPolicy,
    pub embedding: EmbeddingPolicy,
    /// Parsers to try; the first that fits is taken. In a file, none means the standard ones.
    pub parsers: Vec<String>,
}

/// How documents are taken apart.
#[derive(Debug, Clone, PartialEq)]
pub struct ChunkingPolicy {
    /// Presets by source kind.
    pub preset_overrides: PresetOverrides,
}

/// How chunks are embedded.
#[derive(Debug, Clone, PartialEq)]
pub struct EmbeddingPolicy {
    pub model: String,
    pub provider: String,
}

/// An indexing policy as a mathematical value.
#[verifier::ext_equal]
pub struct PolicyView {
    pub overrides: Seq<(Seq<char>, Seq<char>)>,
    pub model: Seq<char>,
    pub provider: Seq<char>,
    pub parsers: Seq<Seq<char>>,
}

impl PolicyView {
    /// The policy where nothing is configured.
    pub open spec fn standard() -> PolicyView {
        PolicyView {
            overrides: Seq::empty(),
            model: "pplx-embed-context-v1-0.6b"@,
            provider: "local-onnx"@,
            parsers: seq!["pdf"@, "office"@, "html"@, "markdown"@, "plaintext"@],
        }
    }
}

impl View for IndexingPolicyConfig {
    type V = PolicyView;

    open spec fn view(&self) -> PolicyView {
        PolicyView {
            overrides: self.chunking.preset_overrides@,
            model: self.embedding.model@,
            provider: self.embedding.provider@,
            parsers: text::views(self.parsers@),
        }
    }
}

impl Default for ChunkingPolicy {
    /// No overrides.
    fn default() -> (r: Self)
        ensures
            r.preset_overrides@ == Seq::<(Seq<char>, Seq<char>)>::empty(),
    {
        ChunkingPolicy { preset_overrides: PresetOverrides::new() }
    }
}

impl Default for EmbeddingPolicy {
    /// The model that runs locally.
    fn default() -> (r: Self)
        ensures
            r.model@ == "pplx-embed-context-v1-0.6b"@,
            r.provider@ == "local-onnx"@,
    {
        EmbeddingPolicy {
            model: "pplx-embed-context-v1-0.6b".to_owned(),
            provider: "local-onnx".to_owned(),
        }
    }
}

impl Default for IndexingPolicyConfig {
    fn default() -> (r: Self)
        ensures
            r@ == PolicyView::standard(),
    {
        let mut parsers: Vec<String> = Vec::new();
        parsers.push("pdf".to_owned());
        parsers.push("office".to_owned());
        parsers.push("html".to_owned());
        parsers.push("markdown".to_owned());
        parsers.push("plaintext".to_owned());
        assert(text::views(parsers@) =~= PolicyView::standard().parsers);
        IndexingPolicyConfig {
            chunking: ChunkingPolicy::default(),
            embedding: EmbeddingPolicy::default(),
            parsers,
        }
    }
}

impl IndexingPolicyConfig {
    /// The same policy.
    pub fn copied(&self) -> (r: Self)
        ensures
            r@ == self@,
    {
        IndexingPolicyConfig {
            chunking: ChunkingPolicy { preset_overrides: self.chunking.preset_overrides.copied() },
            embedding: EmbeddingPolicy {
                model: self.embedding.model.clone(),
                provider: self.embedding.provider.clone(),
            },
            parsers: text::clone_strings(&self.parsers),
        }
    }
}

/// A store that the file declares.
#[derive(Debug, Clone, PartialEq)]
pub struct StoreConfig {
    pub name: String,
    /// `private` or `shared`.
    pub visibility: String,
    pub backend: String,
    /// The store's own policy; without one it inherits the default.
    pub indexing: Option<IndexingPolicyConfig>,
    pub sources: Vec<SourceConfig>,
}

/// A source of a declared store.
#[derive(Debug, Clone, PartialEq)]
pub struct SourceConfig {
    /// `path` or `url`.
    pub kind: String,
    /// Directory, for a path.
    pub root: Option<String>,
    /// Globs of what to take, for a path.
    pub include_globs: Vec<String>,
    /// Globs of what to leave alone, for a path.
    pub exclude_globs: Vec<String>,
    /// Chunking preset, for a path.
    pub preset: String,
    /// Address, for a URL.
    pub url: Option<String>,
    /// How often to fetch, for a URL.
    pub refresh: Option<String>,
}

/// A service for embeddings.
#[derive(Debug, Clone, PartialEq)]
pub struct ProviderConfig {
    pub name: String,
    pub kind: String,
    pub base_url: Option<String>,
    /// Environment variable that holds the key; the key itself is never configured.
    pub api_key_env: Option<String>,
}

/// Visibility of a store where none is given.
pub fn default_visibility() -> (r: String)
    ensures
        r@ == "private"@,
{
    "private".to_owned()
}

/// Backend of a store where none is given.
pub fn default_backend() -> (r: String)
    ensures
        r@ == "lancedb"@,
{
    "lancedb".to_owned()
}

/// Preset of a source where none is given.
pub fn default_preset() -> (r: String)
    ensures
        r@ == "prose"@,
{
    "prose".to_owned()
}

} // verus!
