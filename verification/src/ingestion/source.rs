//! Sources, and what is reported of a run over one.

use super::records;
use super::records::{FetchMetadata, IngestionResult};
use crate::ids;
use crate::text;
use vstd::prelude::*;

verus! {

/// Where a source's documents come from.
#[derive(Debug, Clone, PartialEq, Eq)]
pub enum SourceSpec {
    /// Files below a directory.
    Path { root: String, included: Vec<String>, excluded: Vec<String> },
    /// One URL.
    Url { url: String },
    /// A feed, which lists its newest entries only.
    Feed {
        url: String,
        max_entries: Option<u32>,
        fetch_full_content: bool,
        refresh_interval_secs: Option<u64>,
    },
}

/// A source of documents.
#[derive(Debug, Clone, PartialEq, Eq)]
pub struct Source {
    pub id: String,
    pub store_id: String,
    /// Chunking preset that the source is set to.
    pub source_preset: String,
    pub spec: SourceSpec,
}

/// What a source names, as a mathematical value.
pub enum SpecView {
    Path { root: Seq<char> },
    Url { url: Seq<char> },
    Feed {
        url: Seq<char>,
        max_entries: Option<u32>,
        fetch_full_content: bool,
        refresh_interval_secs: Option<u64>,
    },
}

/// A source as a mathematical value.
pub struct SourceView {
    pub id: Seq<char>,
    pub store_id: Seq<char>,
    pub source_preset: Seq<char>,
    pub spec: SpecView,
}

impl View for SourceSpec {
    type V = SpecView;

    open spec fn view(&self) -> SpecView {
        match *self {
            SourceSpec::Path { root, .. } => SpecView::Path { root: root@ },
            SourceSpec::Url { url } => SpecView::Url { url: url@ },
            SourceSpec::Feed { url, max_entries, fetch_full_content, refresh_interval_secs } =>
                SpecView::Feed {
                url: url@,
                max_entries,
                fetch_full_content,
                refresh_interval_secs,
            },
        }
    }
}

impl View for Source {
    type V = SourceView;

    open spec fn view(&self) -> SourceView {
        SourceView {
            id: self.id@,
            store_id: self.store_id@,
            source_preset: self.source_preset@,
            spec: self.spec@,
        }
    }
}

impl SourceView {
    /// The directory or URL that the source names.
    pub open spec fn location(self) -> Seq<char> {
        match self.spec {
            SpecView::Path { root } => root,
            SpecView::Url { url } => url,
            SpecView::Feed { url, .. } => url,
        }
    }
}

/// The directory or URL that a source names.
pub fn source_location(source: &Source) -> (r: String)
    ensures
        r@ == source@.location(),
{
    match &source.spec {
        SourceSpec::Path { root, .. } => root.clone(),
        SourceSpec::Url { url } => url.clone(),
        SourceSpec::Feed { url, .. } => url.clone(),
    }
}

/// Whether documents that a run no longer finds are deleted.
#[derive(Debug, Clone, Copy, PartialEq, Eq, Structural)]
pub enum DeletionPolicy {
    /// They are counted, and kept.
    Retain,
    /// They are deleted.
    Prune,
}

impl Default for DeletionPolicy {
    /// Nothing is deleted unless asked for.
    fn default() -> (r: Self)
        ensures
            r == DeletionPolicy::Retain,
    {
        DeletionPolicy::Retain
    }
}

// ---------------------------------------------------------------------------
// Feed validators
// ---------------------------------------------------------------------------
/// The digest of the local inputs of a feed run; other sources have none.
pub open spec fn inputs_digest(spec: SpecView, policy_version: Seq<char>) -> Option<Seq<char>> {
    match spec {
        SpecView::Feed { max_entries, fetch_full_content, .. } => Some(
            ids::content_hash_of(
                ids::feed_inputs_text(policy_version, fetch_full_content, max_entries),
            ),
        ),
        _ => None,
    }
}

/// The digest of the local inputs of a feed run; other sources have none.
pub fn feed_inputs_digest(source: &Source, policy_version: &str) -> (r: Option<String>)
    ensures
        text::opt_view(r) == inputs_digest(source@.spec, policy_version@),
{
    match &source.spec {
        SourceSpec::Feed { max_entries, fetch_full_content, .. } => Some(
            ids::compute_feed_inputs_digest(policy_version, *fetch_full_content, *max_entries),
        ),
        _ => None,
    }
}

/// The validators to fetch a feed document with: the stored ones, unless they were captured
/// under other local inputs. An unchanged feed would then be skipped though its entries
/// must be looked at anew.
pub fn usable_validators(
    current_digest: &Option<String>,
    stored_digest: &Option<String>,
    stored: FetchMetadata,
) -> (r: FetchMetadata)
    ensures
        r@ == (match text::opt_view(*current_digest) {
            Some(d) => if text::opt_view(*stored_digest) == Some(d) {
                stored@
            } else {
                records::ValidatorsView::none()
            },
            None => stored@,
        }),
{
    match current_digest {
        Some(d) => match stored_digest {
            Some(s) => if text::str_eq(s.as_str(), d.as_str()) {
                stored
            } else {
                FetchMetadata::default()
            },
            None => FetchMetadata::default(),
        },
        None => stored,
    }
}

// ---------------------------------------------------------------------------
// Progress
// ---------------------------------------------------------------------------
/// What became of one document.
#[derive(Debug, Clone, Copy, PartialEq, Eq, Structural)]
pub enum DocOutcome {
    Skipped,
    Indexed { chunks: usize },
    MetadataUpdated,
    Unsupported,
    Error,
}

/// What a run reports as it goes on.
#[derive(Debug, Clone, PartialEq, Eq)]
pub enum ProgressEvent {
    SourceStarted { source_id: String, location: String },
    Discovered { total: usize },
    DocumentStarted { uri: String, index: usize, total: usize },
    DocumentFinished { uri: String, outcome: DocOutcome },
    SourceFinished { result: IngestionResult },
}

/// A report as a mathematical value.
pub enum EventView {
    SourceStarted { source_id: Seq<char>, location: Seq<char> },
    Discovered { total: usize },
    DocumentStarted { uri: Seq<char>, index: usize, total: usize },
    DocumentFinished { uri: Seq<char>, outcome: DocOutcome },
    SourceFinished { result: records::ResultView },
}

impl View for ProgressEvent {
    type V = EventView;

    open spec fn view(&self) -> EventView {
        match *self {
            ProgressEvent::SourceStarted { source_id, location } => EventView::SourceStarted {
                source_id: source_id@,
                location: location@,
            },
            ProgressEvent::Discovered { total } => EventView::Discovered { total },
            ProgressEvent::DocumentStarted { uri, index, total } => EventView::DocumentStarted {
                uri: uri@,
                index,
                total,
            },
            ProgressEvent::DocumentFinished { uri, outcome } => EventView::DocumentFinished {
                uri: uri@,
                outcome,
            },
            ProgressEvent::SourceFinished { result } => EventView::SourceFinished {
                result: result@,
            },
        }
    }
}

/// Why an ingestor did not deliver a document that it saw.
#[derive(Debug, Clone, PartialEq, Eq)]
pub enum SkipReason {
    /// It has not changed.
    Unchanged,
    /// Its format is not supported.
    Unsupported,
    /// Some other reason, in words.
    Other(String),
    /// Its metadata was brought up to date, and nothing else had changed.
    MetadataUpdated,
    /// It could not be processed.
    Error(String),
}

impl SkipReason {
    /// What a skip counts as.
    pub open spec fn counts_as(self) -> DocOutcome {
        match self {
            SkipReason::Unchanged => DocOutcome::Skipped,
            SkipReason::Unsupported => DocOutcome::Unsupported,
            SkipReason::Other(_) => DocOutcome::Skipped,
            SkipReason::MetadataUpdated => DocOutcome::MetadataUpdated,
            SkipReason::Error(_) => DocOutcome::Error,
        }
    }

    /// What a skip counts as.
    pub fn outcome(&self) -> (r: DocOutcome)
        ensures
            r == self.counts_as(),
    {
        match self {
            SkipReason::Unchanged => DocOutcome::Skipped,
            SkipReason::Unsupported => DocOutcome::Unsupported,
            SkipReason::Other(_) => DocOutcome::Skipped,
            SkipReason::MetadataUpdated => DocOutcome::MetadataUpdated,
            SkipReason::Error(_) => DocOutcome::Error,
        }
    }
}

} // verus!
