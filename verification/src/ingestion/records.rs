//! The records that ingestion reads and writes.

use crate::text;
use vstd::prelude::*;

verus! {

/// The validators of a conditional fetch.
#[derive(Debug, Clone, PartialEq, Eq)]
pub struct FetchMetadata {
    pub etag: Option<String>,
    pub last_modified: Option<String>,
}

/// [`FetchMetadata`] as a mathematical value.
#[verifier::ext_equal]
pub struct ValidatorsView {
    pub etag: Option<Seq<char>>,
    pub last_modified: Option<Seq<char>>,
}

impl View for FetchMetadata {
    type V = ValidatorsView;

    open spec fn view(&self) -> ValidatorsView {
        ValidatorsView {
            etag: text::opt_view(self.etag),
            last_modified: text::opt_view(self.last_modified),
        }
    }
}

impl FetchMetadata {
    /// A record with the same content.
    pub fn copied(&self) -> (r: Self)
        ensures
            r@ == self@,
    {
        FetchMetadata {
            etag: text::clone_opt(&self.etag),
            last_modified: text::clone_opt(&self.last_modified),
        }
    }
}

impl ValidatorsView {
    /// No validators: an unconditional fetch.
    pub open spec fn none() -> ValidatorsView {
        ValidatorsView { etag: None, last_modified: None }
    }
}

impl Default for FetchMetadata {
    /// No validators: an unconditional fetch.
    fn default() -> (r: Self)
        ensures
            r@ == ValidatorsView::none(),
    {
        FetchMetadata { etag: None, last_modified: None }
    }
}

/// Optional validators as a mathematical value.
pub open spec fn opt_validators_view(m: Option<FetchMetadata>) -> Option<ValidatorsView> {
    match m {
        Some(m) => Some(m@),
        None => None,
    }
}

/// A copy of optional validators.
pub fn copy_opt_validators(m: &Option<FetchMetadata>) -> (r: Option<FetchMetadata>)
    ensures
        opt_validators_view(r) == opt_validators_view(*m),
{
    match m {
        Some(m) => Some(m.copied()),
        None => None,
    }
}

/// What is known of an indexed document, by its URI.
#[derive(Debug, Clone, PartialEq, Eq)]
pub struct DocumentRecord {
    pub uri: String,
    pub resource_id: String,
    /// The source that owns the document.
    pub source_id: String,
    pub content_hash: String,
    /// Version of the policy that it was indexed under.
    pub policy_version: String,
    /// Hash of its persisted metadata.
    pub metadata_hash: String,
    pub external_etag: Option<String>,
    pub external_last_modified: Option<String>,
}

/// [`DocumentRecord`] as a mathematical value.
#[verifier::ext_equal]
pub struct DocView {
    pub uri: Seq<char>,
    pub resource_id: Seq<char>,
    pub source_id: Seq<char>,
    pub content_hash: Seq<char>,
    pub policy_version: Seq<char>,
    pub metadata_hash: Seq<char>,
    pub external_etag: Option<Seq<char>>,
    pub external_last_modified: Option<Seq<char>>,
}

impl View for DocumentRecord {
    type V = DocView;

    open spec fn view(&self) -> DocView {
        DocView {
            uri: self.uri@,
            resource_id: self.resource_id@,
            source_id: self.source_id@,
            content_hash: self.content_hash@,
            policy_version: self.policy_version@,
            metadata_hash: self.metadata_hash@,
            external_etag: text::opt_view(self.external_etag),
            external_last_modified: text::opt_view(self.external_last_modified),
        }
    }
}

impl DocumentRecord {
    /// A record with the same content.
    pub fn copied(&self) -> (r: Self)
        ensures
            r@ == self@,
    {
        DocumentRecord {
            uri: self.uri.clone(),
            resource_id: self.resource_id.clone(),
            source_id: self.source_id.clone(),
            content_hash: self.content_hash.clone(),
            policy_version: self.policy_version.clone(),
            metadata_hash: self.metadata_hash.clone(),
            external_etag: text::clone_opt(&self.external_etag),
            external_last_modified: text::clone_opt(&self.external_last_modified),
        }
    }
}

/// A document's metadata: the serialized whole, and the Dublin Core fields that ingestion reads.
#[derive(Debug, Clone, PartialEq, Eq)]
pub struct Metadata {
    /// The metadata as persisted, serialized.
    pub json: String,
    pub title: Option<String>,
    pub date: Option<String>,
}

/// [`Metadata`] as a mathematical value.
#[verifier::ext_equal]
pub struct MetadataView {
    pub json: Seq<char>,
    pub title: Option<Seq<char>>,
    pub date: Option<Seq<char>>,
}

impl View for Metadata {
    type V = MetadataView;

    open spec fn view(&self) -> MetadataView {
        MetadataView {
            json: self.json@,
            title: text::opt_view(self.title),
            date: text::opt_view(self.date),
        }
    }
}

impl Metadata {
    /// A record with the same content.
    pub fn copied(&self) -> (r: Self)
        ensures
            r@ == self@,
    {
        Metadata {
            json: self.json.clone(),
            title: text::clone_opt(&self.title),
            date: text::clone_opt(&self.date),
        }
    }
}

/// The persisted metadata state of a resource.
#[derive(Debug, Clone, PartialEq, Eq)]
pub struct ResourceRecord {
    pub metadata: Metadata,
    pub external_id: Option<String>,
    pub external_etag: Option<String>,
    pub external_last_modified: Option<String>,
    pub modified_at: Option<String>,
    /// The document's own date, as it came.
    pub date_original: Option<String>,
    /// The sortable form of that date.
    pub date_parsed: Option<String>,
}

/// [`ResourceRecord`] as a mathematical value.
#[verifier::ext_equal]
pub struct ResourceRecordView {
    pub metadata: MetadataView,
    pub external_id: Option<Seq<char>>,
    pub external_etag: Option<Seq<char>>,
    pub external_last_modified: Option<Seq<char>>,
    pub modified_at: Option<Seq<char>>,
    pub date_original: Option<Seq<char>>,
    pub date_parsed: Option<Seq<char>>,
}

impl View for ResourceRecord {
    type V = ResourceRecordView;

    open spec fn view(&self) -> ResourceRecordView {
        ResourceRecordView {
            metadata: self.metadata@,
            external_id: text::opt_view(self.external_id),
            external_etag: text::opt_view(self.external_etag),
            external_last_modified: text::opt_view(self.external_last_modified),
            modified_at: text::opt_view(self.modified_at),
            date_original: text::opt_view(self.date_original),
            date_parsed: text::opt_view(self.date_parsed),
        }
    }
}

impl ResourceRecord {
    /// A record with the same content.
    pub fn copied(&self) -> (r: Self)
        ensures
            r@ == self@,
    {
        ResourceRecord {
            metadata: self.metadata.copied(),
            external_id: text::clone_opt(&self.external_id),
            external_etag: text::clone_opt(&self.external_etag),
            external_last_modified: text::clone_opt(&self.external_last_modified),
            modified_at: text::clone_opt(&self.modified_at),
            date_original: text::clone_opt(&self.date_original),
            date_parsed: text::clone_opt(&self.date_parsed),
        }
    }
}

/// A feed entry that was not checked for a while.
#[derive(Debug, Clone, PartialEq, Eq)]
pub struct StaleFeedResource {
    pub uri: String,
    pub resource_id: String,
    pub external_etag: Option<String>,
    pub external_last_modified: Option<String>,
}

/// [`StaleFeedResource`] as a mathematical value.
#[verifier::ext_equal]
pub struct StaleView {
    pub uri: Seq<char>,
    pub resource_id: Seq<char>,
    pub external_etag: Option<Seq<char>>,
    pub external_last_modified: Option<Seq<char>>,
}

impl View for StaleFeedResource {
    type V = StaleView;

    open spec fn view(&self) -> StaleView {
        StaleView {
            uri: self.uri@,
            resource_id: self.resource_id@,
            external_etag: text::opt_view(self.external_etag),
            external_last_modified: text::opt_view(self.external_last_modified),
        }
    }
}

impl StaleFeedResource {
    /// A record with the same content.
    pub fn copied(&self) -> (r: Self)
        ensures
            r@ == self@,
    {
        StaleFeedResource {
            uri: self.uri.clone(),
            resource_id: self.resource_id.clone(),
            external_etag: text::clone_opt(&self.external_etag),
            external_last_modified: text::clone_opt(&self.external_last_modified),
        }
    }
}

/// Where a chunk came from.
#[derive(Debug, Clone, PartialEq, Eq)]
pub struct Provenance {
    pub origin_store: String,
    pub source_id: String,
    pub source_kind: String,
    pub fetched_at: String,
    pub content_hash: String,
    pub share_path: Vec<String>,
}

/// [`Provenance`] as a mathematical value.
#[verifier::ext_equal]
pub struct ProvenanceView {
    pub origin_store: Seq<char>,
    pub source_id: Seq<char>,
    pub source_kind: Seq<char>,
    pub fetched_at: Seq<char>,
    pub content_hash: Seq<char>,
    pub share_path: Seq<Seq<char>>,
}

impl View for Provenance {
    type V = ProvenanceView;

    open spec fn view(&self) -> ProvenanceView {
        ProvenanceView {
            origin_store: self.origin_store@,
            source_id: self.source_id@,
            source_kind: self.source_kind@,
            fetched_at: self.fetched_at@,
            content_hash: self.content_hash@,
            share_path: text::views(self.share_path@),
        }
    }
}

impl Provenance {
    /// A record with the same content.
    pub fn copied(&self) -> (r: Self)
        ensures
            r@ == self@,
    {
        Provenance {
            origin_store: self.origin_store.clone(),
            source_id: self.source_id.clone(),
            source_kind: self.source_kind.clone(),
            fetched_at: self.fetched_at.clone(),
            content_hash: self.content_hash.clone(),
            share_path: text::clone_strings(&self.share_path),
        }
    }
}

/// What one run over a source did.
#[derive(Debug, Clone, PartialEq, Eq)]
pub struct IngestionResult {
    pub docs_seen: u64,
    pub docs_indexed: u64,
    pub docs_skipped: u64,
    pub docs_deleted: u64,
    pub chunks_written: u64,
    pub unsupported_format_count: u64,
    pub error_count: u64,
    /// Documents that a pruning run would have deleted.
    pub docs_prunable: u64,
    pub docs_metadata_updated: u64,
    pub feed_entries_liveness_checked: u64,
    /// Validators of the feed document itself.
    pub document_validators: Option<FetchMetadata>,
    /// Digest of the local inputs that those validators belong to.
    pub document_inputs_digest: Option<String>,
}

/// [`IngestionResult`] as a mathematical value.
#[verifier::ext_equal]
pub struct ResultView {
    pub docs_seen: u64,
    pub docs_indexed: u64,
    pub docs_skipped: u64,
    pub docs_deleted: u64,
    pub chunks_written: u64,
    pub unsupported_format_count: u64,
    pub error_count: u64,
    pub docs_prunable: u64,
    pub docs_metadata_updated: u64,
    pub feed_entries_liveness_checked: u64,
    pub document_validators: Option<ValidatorsView>,
    pub document_inputs_digest: Option<Seq<char>>,
}

impl View for IngestionResult {
    type V = ResultView;

    open spec fn view(&self) -> ResultView {
        ResultView {
            docs_seen: self.docs_seen,
            docs_indexed: self.docs_indexed,
            docs_skipped: self.docs_skipped,
            docs_deleted: self.docs_deleted,
            chunks_written: self.chunks_written,
            unsupported_format_count: self.unsupported_format_count,
            error_count: self.error_count,
            docs_prunable: self.docs_prunable,
            docs_metadata_updated: self.docs_metadata_updated,
            feed_entries_liveness_checked: self.feed_entries_liveness_checked,
            document_validators: opt_validators_view(self.document_validators),
            document_inputs_digest: text::opt_view(self.document_inputs_digest),
        }
    }
}

impl IngestionResult {
    /// A record with the same content.
    pub fn copied(&self) -> (r: Self)
        ensures
            r@ == self@,
    {
        IngestionResult {
            docs_seen: self.docs_seen,
            docs_indexed: self.docs_indexed,
            docs_skipped: self.docs_skipped,
            docs_deleted: self.docs_deleted,
            chunks_written: self.chunks_written,
            unsupported_format_count: self.unsupported_format_count,
            error_count: self.error_count,
            docs_prunable: self.docs_prunable,
            docs_metadata_updated: self.docs_metadata_updated,
            feed_entries_liveness_checked: self.feed_entries_liveness_checked,
            document_validators: copy_opt_validators(&self.document_validators),
            document_inputs_digest: text::clone_opt(&self.document_inputs_digest),
        }
    }
}

impl ResultView {
    /// A run that did nothing yet.
    pub open spec fn zero() -> ResultView {
        ResultView {
            docs_seen: 0,
            docs_indexed: 0,
            docs_skipped: 0,
            docs_deleted: 0,
            chunks_written: 0,
            unsupported_format_count: 0,
            error_count: 0,
            docs_prunable: 0,
            docs_metadata_updated: 0,
            feed_entries_liveness_checked: 0,
            document_validators: None,
            document_inputs_digest: None,
        }
    }
}

impl Default for IngestionResult {
    /// A run that did nothing yet.
    fn default() -> (r: Self)
        ensures
            r@ == ResultView::zero(),
    {
        IngestionResult {
            docs_seen: 0,
            docs_indexed: 0,
            docs_skipped: 0,
            docs_deleted: 0,
            chunks_written: 0,
            unsupported_format_count: 0,
            error_count: 0,
            docs_prunable: 0,
            docs_metadata_updated: 0,
            feed_entries_liveness_checked: 0,
            document_validators: None,
            document_inputs_digest: None,
        }
    }
}

/// One more, until a counter is full.
pub open spec fn bumped(n: u64, by: int) -> u64 {
    if n + by > u64::MAX {
        u64::MAX
    } else {
        (n + by) as u64
    }
}

/// Counts one more.
pub fn bump(n: u64) -> (r: u64)
    ensures
        r == bumped(n, 1),
{
    n.saturating_add(1)
}

} // verus!
