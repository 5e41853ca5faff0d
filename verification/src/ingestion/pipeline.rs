//! A run over one source: what becomes of each document that an ingestor delivers.
//!
//! The run decides and keeps count. Where the store or the embedder has to be asked, a
//! function returns what to ask, and another one takes the answer.

use super::document_index::DocumentIndex;
use super::records;
use super::records::{DocumentRecord, FetchMetadata, IngestionResult, Metadata, ResourceRecord};
use super::resource;
use super::resource::{IndexOutcome, IngestionConfig, Resource};
use super::source;
use super::source::{DocOutcome, ProgressEvent, SkipReason, Source};
use super::uri_set::UriSet;
use crate::error::{Error, ErrorView};
use crate::ids;
use crate::lists;
use crate::text;
use vstd::prelude::*;

verus! {

/// A run over one source.
pub struct PipelineCallback {
    pub source: Source,
    pub config: IngestionConfig,
    pub doc_index: DocumentIndex,
    pub result: IngestionResult,
    /// URIs that the ingestor delivered or skipped.
    pub seen: UriSet,
    /// URIs that the ingestor found to be gone.
    pub gone: UriSet,
    pub discovered_total: usize,
    pub next_index: usize,
    pub skip_error_count: usize,
    /// Reports that were not passed on yet.
    pub events: Vec<ProgressEvent>,
}

/// A run as a mathematical value.
#[verifier::ext_equal]
pub struct RunView {
    pub source: source::SourceView,
    pub store_id: Seq<char>,
    pub policy_version: Seq<char>,
    pub chunker: crate::chunker::config::ConfigView,
    pub index: Map<Seq<char>, records::DocView>,
    pub result: records::ResultView,
    pub seen: Set<Seq<char>>,
    pub gone: Set<Seq<char>>,
    pub total: usize,
    pub next: usize,
    pub skip_errors: usize,
    pub events: Seq<source::EventView>,
}

impl View for PipelineCallback {
    type V = RunView;

    open spec fn view(&self) -> RunView {
        RunView {
            source: self.source@,
            store_id: self.config.store_id@,
            policy_version: self.config.policy_version@,
            chunker: self.config.chunker@,
            index: self.doc_index@,
            result: self.result@,
            seen: self.seen@,
            gone: self.gone@,
            total: self.discovered_total,
            next: self.next_index,
            skip_errors: self.skip_error_count,
            events: lists::views_of(self.events@),
        }
    }
}

/// One more, until a counter is full.
pub open spec fn next_up(n: usize) -> usize {
    if n == usize::MAX {
        n
    } else {
        (n + 1) as usize
    }
}

/// The counters after a document with this outcome.
pub open spec fn counted(r: records::ResultView, outcome: DocOutcome) -> records::ResultView {
    match outcome {
        DocOutcome::Skipped => records::ResultView {
            docs_skipped: records::bumped(r.docs_skipped, 1),
            ..r
        },
        DocOutcome::Indexed { chunks } => records::ResultView {
            docs_indexed: records::bumped(r.docs_indexed, 1),
            chunks_written: records::bumped(r.chunks_written, chunks as int),
            ..r
        },
        DocOutcome::MetadataUpdated => records::ResultView {
            docs_metadata_updated: records::bumped(r.docs_metadata_updated, 1),
            ..r
        },
        DocOutcome::Unsupported => records::ResultView {
            unsupported_format_count: records::bumped(r.unsupported_format_count, 1),
            ..r
        },
        DocOutcome::Error => records::ResultView {
            error_count: records::bumped(r.error_count, 1),
            ..r
        },
    }
}

/// A change of a resource's metadata: what to write, and the document's record once it is
/// written.
pub struct MetadataWrite {
    pub resource_id: String,
    pub record: ResourceRecord,
    pub updated: DocumentRecord,
}

/// A change of metadata as a mathematical value.
pub struct WriteView {
    pub resource_id: Seq<char>,
    pub record: records::ResourceRecordView,
    pub updated: records::DocView,
}

impl View for MetadataWrite {
    type V = WriteView;

    open spec fn view(&self) -> WriteView {
        WriteView {
            resource_id: self.resource_id@,
            record: self.record@,
            updated: self.updated@,
        }
    }
}

/// What is to be done with a resource.
pub enum ResourceStep {
    /// Nothing: it is indexed as it is.
    Unchanged,
    /// Its content is indexed, and only its metadata is to be written.
    UpdateMetadata(MetadataWrite),
    /// It is to be indexed, in place of the resource that the URI had before.
    Index { replaces: Option<String> },
}

/// [`ResourceStep`] as a mathematical value.
pub enum StepView {
    Unchanged,
    UpdateMetadata(WriteView),
    Index { replaces: Option<Seq<char>> },
}

impl View for ResourceStep {
    type V = StepView;

    open spec fn view(&self) -> StepView {
        match *self {
            ResourceStep::Unchanged => StepView::Unchanged,
            ResourceStep::UpdateMetadata(w) => StepView::UpdateMetadata(w@),
            ResourceStep::Index { replaces } => StepView::Index { replaces: text::opt_view(replaces) },
        }
    }
}

/// What writing a document's metadata came to.
#[derive(Debug, Clone, PartialEq, Eq)]
pub enum MetadataWriteOutcome {
    Unchanged,
    Written,
    Failed(String),
}

/// [`MetadataWriteOutcome`] as a mathematical value.
pub enum WriteOutcomeView {
    Unchanged,
    Written,
    Failed(Seq<char>),
}

impl View for MetadataWriteOutcome {
    type V = WriteOutcomeView;

    open spec fn view(&self) -> WriteOutcomeView {
        match *self {
            MetadataWriteOutcome::Unchanged => WriteOutcomeView::Unchanged,
            MetadataWriteOutcome::Written => WriteOutcomeView::Written,
            MetadataWriteOutcome::Failed(m) => WriteOutcomeView::Failed(m@),
        }
    }
}

/// What is to be done about refreshed metadata.
pub enum MetadataStep {
    /// Nothing more.
    Done(MetadataWriteOutcome),
    /// Write it.
    Write(MetadataWrite),
}

/// [`MetadataStep`] as a mathematical value.
pub enum MetadataStepView {
    Done(WriteOutcomeView),
    Write(WriteView),
}

impl View for MetadataStep {
    type V = MetadataStepView;

    open spec fn view(&self) -> MetadataStepView {
        match *self {
            MetadataStep::Done(o) => MetadataStepView::Done(o@),
            MetadataStep::Write(w) => MetadataStepView::Write(w@),
        }
    }
}

/// Validators to be folded into a document's record.
pub struct ValidatorsPlan {
    pub existing: DocumentRecord,
    pub etag: Option<String>,
    pub last_modified: Option<String>,
}

/// What failed to be persisted when validators are refreshed.
pub const REFRESHED_VALIDATORS: &'static str = "refreshed conditional-GET validators";

/// What failed to be persisted when a source's metadata is refreshed.
pub const REFRESHED_METADATA: &'static str = "refreshed source-supplied metadata";

/// The first of two optional values.
pub open spec fn first_of(a: Option<Seq<char>>, b: Option<Seq<char>>) -> Option<Seq<char>> {
    match a {
        Some(x) => Some(x),
        None => b,
    }
}

/// The first of two optional strings.
pub fn or_else(a: &Option<String>, b: &Option<String>) -> (r: Option<String>)
    ensures
        text::opt_view(r) == first_of(text::opt_view(*a), text::opt_view(*b)),
{
    match a {
        Some(x) => Some(x.clone()),
        None => text::clone_opt(b),
    }
}

/// The outcome of reading a resource's persisted state, as a mathematical value.
pub open spec fn read_view(r: Result<Option<ResourceRecord>, Error>) -> Result<
    Option<records::ResourceRecordView>,
    ErrorView,
> {
    match r {
        Ok(Some(x)) => Ok(Some(x@)),
        Ok(None) => Ok(None),
        Err(e) => Err(e@),
    }
}

/// The document's record with these validators, and the hash that goes with them.
pub open spec fn revalidated(
    existing: records::DocView,
    persisted: records::ResourceRecordView,
    etag: Option<Seq<char>>,
    last_modified: Option<Seq<char>>,
) -> WriteView {
    WriteView {
        resource_id: existing.resource_id,
        record: records::ResourceRecordView {
            external_etag: etag,
            external_last_modified: last_modified,
            ..persisted
        },
        updated: records::DocView {
            metadata_hash: resource::state_hash(
                persisted.metadata,
                persisted.external_id,
                etag,
                persisted.modified_at,
            ),
            external_etag: etag,
            external_last_modified: last_modified,
            ..existing
        },
    }
}

/// The document's record with this metadata.
pub open spec fn enriched(
    existing: records::DocView,
    metadata: records::MetadataView,
    external_id: Option<Seq<char>>,
    modified_at: Option<Seq<char>>,
) -> WriteView {
    WriteView {
        resource_id: existing.resource_id,
        record: records::ResourceRecordView {
            metadata,
            external_id,
            external_etag: existing.external_etag,
            external_last_modified: existing.external_last_modified,
            modified_at,
            date_original: metadata.date,
            date_parsed: resource::sortable_date(metadata.date),
        },
        updated: records::DocView {
            metadata_hash: resource::state_hash(
                metadata,
                external_id,
                existing.external_etag,
                modified_at,
            ),
            ..existing
        },
    }
}

impl RunView {
    /// The run that begins.
    pub open spec fn begun(
        source: source::SourceView,
        store_id: Seq<char>,
        policy_version: Seq<char>,
        chunker: crate::chunker::config::ConfigView,
        index: Map<Seq<char>, records::DocView>,
    ) -> RunView {
        RunView {
            source,
            store_id,
            policy_version,
            chunker,
            index,
            result: records::ResultView::zero(),
            seen: Set::empty(),
            gone: Set::empty(),
            total: 0,
            next: 0,
            skip_errors: 0,
            events: seq![
                source::EventView::SourceStarted {
                    source_id: source.id,
                    location: source.location(),
                },
            ],
        }
    }

    /// A document comes up.
    pub open spec fn started(self, uri: Seq<char>) -> RunView {
        RunView {
            seen: self.seen.insert(uri),
            result: records::ResultView {
                docs_seen: records::bumped(self.result.docs_seen, 1),
                ..self.result
            },
            next: next_up(self.next),
            events: self.events.push(
                source::EventView::DocumentStarted { uri, index: self.next, total: self.total },
            ),
            ..self
        }
    }

    /// A document is done with.
    pub open spec fn finished(self, uri: Seq<char>, outcome: DocOutcome) -> RunView {
        RunView {
            result: counted(self.result, outcome),
            events: self.events.push(source::EventView::DocumentFinished { uri, outcome }),
            ..self
        }
    }

    /// A document's record is put into the index.
    pub open spec fn recorded(self, record: records::DocView) -> RunView {
        RunView { index: self.index.insert(record.uri, record), ..self }
    }

    /// What is to be done with a resource. One with known content under the same policy is
    /// not indexed again; if its metadata or its modification stamp changed, those are
    /// written.
    pub open spec fn step(self, res: resource::ResourceView) -> StepView {
        if self.index.contains_key(res.uri) {
            let known = self.index[res.uri];
            if known.content_hash == res.content_hash && known.policy_version
                == self.policy_version {
                if known.metadata_hash == res.metadata_hash() && known.external_last_modified
                    == res.external_last_modified {
                    StepView::Unchanged
                } else {
                    StepView::UpdateMetadata(
                        WriteView {
                            resource_id: known.resource_id,
                            record: res.persisted(),
                            updated: records::DocView {
                                metadata_hash: res.metadata_hash(),
                                external_etag: res.external_etag,
                                external_last_modified: res.external_last_modified,
                                ..known
                            },
                        },
                    )
                }
            } else {
                StepView::Index { replaces: Some(known.resource_id) }
            }
        } else {
            StepView::Index { replaces: None }
        }
    }

    /// The record of a resource that was indexed.
    pub open spec fn record_for(
        self,
        res: resource::ResourceView,
        metadata_hash: Seq<char>,
    ) -> records::DocView {
        records::DocView {
            uri: res.uri,
            resource_id: res.id,
            source_id: res.source_id,
            content_hash: res.content_hash,
            policy_version: self.policy_version,
            metadata_hash,
            external_etag: res.external_etag,
            external_last_modified: res.external_last_modified,
        }
    }

    /// The run after a resource was given to the store.
    pub open spec fn indexed(
        self,
        res: resource::ResourceView,
        outcome: Result<Option<(usize, Seq<char>)>, ErrorView>,
    ) -> RunView {
        match outcome {
            Ok(None) => self.finished(res.uri, DocOutcome::Skipped),
            Ok(Some((chunks, metadata_hash))) => self.recorded(
                self.record_for(res, metadata_hash),
            ).finished(res.uri, DocOutcome::Indexed { chunks }),
            Err(_) => self.finished(res.uri, DocOutcome::Error),
        }
    }

    /// The run after a resource's metadata was given to the store.
    pub open spec fn metadata_written(self, w: WriteView, stored: bool) -> RunView {
        if stored {
            self.recorded(w.updated).finished(w.updated.uri, DocOutcome::MetadataUpdated)
        } else {
            self.finished(w.updated.uri, DocOutcome::Error)
        }
    }

    /// The run after a document was skipped.
    pub open spec fn skipped(self, uri: Seq<char>, reason: SkipReason) -> RunView {
        let s = self.started(uri).finished(uri, reason.counts_as());
        if reason is Error {
            RunView { skip_errors: next_up(self.skip_errors), ..s }
        } else {
            s
        }
    }

    /// The validators to fetch a document with: what was fetched under another policy is
    /// fetched in full.
    pub open spec fn fetch_metadata(self, uri: Seq<char>) -> records::ValidatorsView {
        if self.index.contains_key(uri) && self.index[uri].policy_version == self.policy_version {
            records::ValidatorsView {
                etag: self.index[uri].external_etag,
                last_modified: self.index[uri].external_last_modified,
            }
        } else {
            records::ValidatorsView::none()
        }
    }

    /// The validators that a document's record is to have, where they change it.
    pub open spec fn new_validators(
        self,
        uri: Seq<char>,
        meta: records::ValidatorsView,
    ) -> Option<records::ValidatorsView> {
        if self.index.contains_key(uri) {
            let known = self.index[uri];
            let etag = first_of(meta.etag, known.external_etag);
            let last_modified = first_of(meta.last_modified, known.external_last_modified);
            if etag == known.external_etag && last_modified == known.external_last_modified {
                None
            } else {
                Some(records::ValidatorsView { etag, last_modified })
            }
        } else {
            None
        }
    }
}

/// What follows reading the persisted state for new validators.
pub open spec fn validators_step(
    existing: records::DocView,
    etag: Option<Seq<char>>,
    last_modified: Option<Seq<char>>,
    read: Result<Option<records::ResourceRecordView>, ErrorView>,
) -> MetadataStepView {
    match read {
        Ok(Some(persisted)) => MetadataStepView::Write(
            revalidated(existing, persisted, etag, last_modified),
        ),
        Ok(None) => MetadataStepView::Done(WriteOutcomeView::Unchanged),
        Err(e) => MetadataStepView::Done(
            WriteOutcomeView::Failed(
                "error reading resource '"@ + existing.uri
                    + "' to refresh conditional-GET validators: "@ + e.display(),
            ),
        ),
    }
}

/// What follows reading the persisted state for refreshed metadata, which is given as it
/// is after the refresh.
pub open spec fn enrichment_step(
    existing: records::DocView,
    external_id: Option<Seq<char>>,
    modified_at: Option<Seq<char>>,
    read: Result<Option<records::MetadataView>, ErrorView>,
) -> MetadataStepView {
    match read {
        Ok(Some(metadata)) => {
            let w = enriched(existing, metadata, external_id, modified_at);
            if w.updated.metadata_hash == existing.metadata_hash {
                MetadataStepView::Done(WriteOutcomeView::Unchanged)
            } else {
                MetadataStepView::Write(w)
            }
        },
        Ok(None) => MetadataStepView::Done(WriteOutcomeView::Unchanged),
        Err(e) => MetadataStepView::Done(
            WriteOutcomeView::Failed(
                "error reading resource '"@ + existing.uri
                    + "' to refresh source-supplied metadata: "@ + e.display(),
            ),
        ),
    }
}

/// Counts one more, until the counter is full.
pub fn count_up(n: usize) -> (r: usize)
    ensures
        r == next_up(n),
{
    n.saturating_add(1)
}

impl PipelineCallback {
    /// The sets and the index hold no URI twice.
    pub open spec fn wf(self) -> bool {
        self.doc_index.wf() && self.seen.wf() && self.gone.wf()
    }

    /// Begins a run.
    pub fn new(source: Source, config: IngestionConfig, doc_index: DocumentIndex) -> (r: Self)
        requires
            doc_index.wf(),
        ensures
            r.wf(),
            r@ == RunView::begun(
                source@,
                config.store_id@,
                config.policy_version@,
                config.chunker@,
                doc_index@,
            ),
    {
        let mut events: Vec<ProgressEvent> = Vec::new();
        events.push(
            ProgressEvent::SourceStarted {
                source_id: source.id.clone(),
                location: source::source_location(&source),
            },
        );
        let r = PipelineCallback {
            source,
            config,
            doc_index,
            result: IngestionResult::default(),
            seen: UriSet::new(),
            gone: UriSet::new(),
            discovered_total: 0,
            next_index: 0,
            skip_error_count: 0,
            events,
        };
        assert(r@ =~= RunView::begun(
            r.source@,
            r.config.store_id@,
            r.config.policy_version@,
            r.config.chunker@,
            r.doc_index@,
        ));
        r
    }

    /// Keeps a report for passing on.
    pub(super) fn emit(&mut self, event: ProgressEvent)
        requires
            old(self).wf(),
        ensures
            final(self).wf(),
            final(self)@ == (RunView { events: old(self)@.events.push(event@), ..old(self)@ }),
    {
        self.events.push(event);
        proof {
            lists::lemma_views_push(old(self).events@, event);
        }
    }

    /// Takes the reports that were not passed on yet.
    pub fn take_events(&mut self) -> (r: Vec<ProgressEvent>)
        requires
            old(self).wf(),
        ensures
            final(self).wf(),
            lists::views_of(r@) == old(self)@.events,
            final(self)@ == (RunView { events: Seq::empty(), ..old(self)@ }),
    {
        let mut out: Vec<ProgressEvent> = Vec::new();
        std::mem::swap(&mut out, &mut self.events);
        assert(lists::views_of(self.events@) =~= Seq::empty());
        out
    }

    fn start_document(&mut self, uri: &str)
        requires
            old(self).wf(),
        ensures
            final(self).wf(),
            final(self)@ == old(self)@.started(uri@),
    {
        let index: usize = self.next_index;
        let total: usize = self.discovered_total;
        self.seen.insert(uri);
        self.result.docs_seen = records::bump(self.result.docs_seen);
        self.next_index = count_up(index);
        self.emit(ProgressEvent::DocumentStarted { uri: uri.to_owned(), index, total });
    }

    fn finish_document(&mut self, uri: &str, outcome: DocOutcome)
        requires
            old(self).wf(),
        ensures
            final(self).wf(),
            final(self)@ == old(self)@.finished(uri@, outcome),
    {
        match outcome {
            DocOutcome::Skipped => {
                self.result.docs_skipped = records::bump(self.result.docs_skipped);
            },
            DocOutcome::Indexed { chunks } => {
                self.result.docs_indexed = records::bump(self.result.docs_indexed);
                self.result.chunks_written =
                self.result.chunks_written.saturating_add(chunks as u64);
            },
            DocOutcome::MetadataUpdated => {
                self.result.docs_metadata_updated = records::bump(
                    self.result.docs_metadata_updated,
                );
            },
            DocOutcome::Unsupported => {
                self.result.unsupported_format_count = records::bump(
                    self.result.unsupported_format_count,
                );
            },
            DocOutcome::Error => {
                self.result.error_count = records::bump(self.result.error_count);
            },
        }
        self.emit(ProgressEvent::DocumentFinished { uri: uri.to_owned(), outcome });
    }

    /// What is to be done with a resource. An unchanged one is done with; for the others
    /// the answer of the store goes to [`Self::metadata_written`] or [`Self::indexed`].
    pub fn on_resource(&mut self, resource: &Resource) -> (r: ResourceStep)
        requires
            old(self).wf(),
        ensures
            final(self).wf(),
            r@ == old(self)@.step(resource@),
            final(self)@ == (if r is Unchanged {
                old(self)@.started(resource.uri@).finished(resource.uri@, DocOutcome::Skipped)
            } else {
                old(self)@.started(resource.uri@)
            }),
    {
        self.start_document(resource.uri.as_str());
        let replaces = match self.doc_index.get(resource.uri.as_str()) {
            Some(existing) => {
                if text::str_eq(existing.content_hash.as_str(), resource.content_hash.as_str())
                    && text::str_eq(
                    existing.policy_version.as_str(),
                    self.config.policy_version.as_str(),
                ) {
                    let derived = resource::derive_resource_state(resource);
                    if !text::str_eq(
                        existing.metadata_hash.as_str(),
                        derived.metadata_hash.as_str(),
                    ) || !text::opt_string_eq(
                        &existing.external_last_modified,
                        &resource.external_last_modified,
                    ) {
                        let updated = DocumentRecord {
                            uri: existing.uri.clone(),
                            resource_id: existing.resource_id.clone(),
                            source_id: existing.source_id.clone(),
                            content_hash: existing.content_hash.clone(),
                            policy_version: existing.policy_version.clone(),
                            metadata_hash: derived.metadata_hash,
                            external_etag: text::clone_opt(&resource.external_etag),
                            external_last_modified: text::clone_opt(
                                &resource.external_last_modified,
                            ),
                        };
                        return ResourceStep::UpdateMetadata(
                            MetadataWrite {
                                resource_id: existing.resource_id.clone(),
                                record: derived.record,
                                updated,
                            },
                        );
                    }
                    None
                } else {
                    Some(Some(existing.resource_id.clone()))
                }
            },
            None => Some(None),
        };
        match replaces {
            Some(replaces) => ResourceStep::Index { replaces },
            None => {
                self.finish_document(resource.uri.as_str(), DocOutcome::Skipped);
                ResourceStep::Unchanged
            },
        }
    }

    /// Takes the store's answer to [`ResourceStep::UpdateMetadata`]. The index changes only
    /// where the store did.
    pub fn metadata_written(&mut self, write: MetadataWrite, stored: bool)
        requires
            old(self).wf(),
        ensures
            final(self).wf(),
            final(self)@ == old(self)@.metadata_written(write@, stored),
    {
        let uri = write.updated.uri.clone();
        if stored {
            self.doc_index.upsert(write.updated);
            self.finish_document(uri.as_str(), DocOutcome::MetadataUpdated);
        } else {
            self.finish_document(uri.as_str(), DocOutcome::Error);
        }
    }

    /// Takes what indexing a resource came to. A resource without chunks, or one that failed,
    /// leaves what is indexed for its URI in place.
    pub fn indexed(&mut self, resource: &Resource, outcome: Result<IndexOutcome, Error>)
        requires
            old(self).wf(),
        ensures
            final(self).wf(),
            final(self)@ == old(self)@.indexed(resource@, indexed_view(outcome)),
    {
        match outcome {
            Ok(IndexOutcome::Empty) => {
                self.finish_document(resource.uri.as_str(), DocOutcome::Skipped);
            },
            Ok(IndexOutcome::Written(chunks, metadata_hash)) => {
                self.doc_index.upsert(
                    DocumentRecord {
                        uri: resource.uri.clone(),
                        resource_id: resource.id.clone(),
                        source_id: resource.source_id.clone(),
                        content_hash: resource.content_hash.clone(),
                        policy_version: self.config.policy_version.clone(),
                        metadata_hash,
                        external_etag: text::clone_opt(&resource.external_etag),
                        external_last_modified: text::clone_opt(&resource.external_last_modified),
                    },
                );
                self.finish_document(resource.uri.as_str(), DocOutcome::Indexed { chunks });
            },
            Err(_) => {
                self.finish_document(resource.uri.as_str(), DocOutcome::Error);
            },
        }
    }

    /// So many documents were discovered.
    pub fn on_discovered(&mut self, total: usize)
        requires
            old(self).wf(),
        ensures
            final(self).wf(),
            final(self)@ == (RunView {
                total,
                events: old(self)@.events.push(source::EventView::Discovered { total }),
                ..old(self)@
            }),
    {
        self.discovered_total = total;
        self.emit(ProgressEvent::Discovered { total });
    }

    /// A document is gone for certain. It does not count as seen.
    pub fn on_gone(&mut self, uri: &str)
        requires
            old(self).wf(),
        ensures
            final(self).wf(),
            final(self)@ == (RunView { gone: old(self)@.gone.insert(uri@), ..old(self)@ }),
    {
        self.gone.insert(uri);
    }

    /// A document was seen, and not delivered.
    pub fn on_skipped(&mut self, uri: &str, reason: &SkipReason)
        requires
            old(self).wf(),
        ensures
            final(self).wf(),
            final(self)@ == old(self)@.skipped(uri@, *reason),
    {
        self.start_document(uri);
        self.finish_document(uri, reason.outcome());
        match reason {
            SkipReason::Error(_) => {
                self.skip_error_count = count_up(self.skip_error_count);
            },
            _ => {},
        }
    }

    /// The validators to fetch a document with.
    pub fn lookup_fetch_metadata(&self, uri: &str) -> (r: FetchMetadata)
        requires
            self.wf(),
        ensures
            r@ == self@.fetch_metadata(uri@),
    {
        match self.doc_index.get(uri) {
            Some(existing) => if text::str_eq(
                existing.policy_version.as_str(),
                self.config.policy_version.as_str(),
            ) {
                FetchMetadata {
                    etag: text::clone_opt(&existing.external_etag),
                    last_modified: text::clone_opt(&existing.external_last_modified),
                }
            } else {
                FetchMetadata::default()
            },
            None => FetchMetadata::default(),
        }
    }

    /// A fetch brought validators for a document that has not changed. Returns how they are
    /// to be folded in, with the document's record; nothing where they change nothing.
    pub fn on_validators_refreshed(&self, uri: &str, meta: &FetchMetadata) -> (r: Option<
        ValidatorsPlan,
    >)
        requires
            self.wf(),
        ensures
            match self@.new_validators(uri@, meta@) {
                Some(v) => {
                    &&& r is Some
                    &&& r->0.existing@ == self@.index[uri@]
                    &&& r->0.existing@.uri == uri@
                    &&& text::opt_view(r->0.etag) == v.etag
                    &&& text::opt_view(r->0.last_modified) == v.last_modified
                },
                None => r is None,
            },
    {
        match self.doc_index.get(uri) {
            Some(existing) => {
                let etag = or_else(&meta.etag, &existing.external_etag);
                let last_modified = or_else(&meta.last_modified, &existing.external_last_modified);
                if text::opt_string_eq(&etag, &existing.external_etag) && text::opt_string_eq(
                    &last_modified,
                    &existing.external_last_modified,
                ) {
                    None
                } else {
                    Some(ValidatorsPlan { existing: existing.copied(), etag, last_modified })
                }
            },
            None => None,
        }
    }

    /// A source brought metadata for a document that has not changed. Returns the document's
    /// record, whose persisted state is to be read.
    pub fn on_metadata_refreshed(&self, uri: &str) -> (r: Option<DocumentRecord>)
        requires
            self.wf(),
        ensures
            match r {
                Some(d) => self@.index.contains_key(uri@) && d@ == self@.index[uri@] && d@.uri
                    == uri@,
                None => !self@.index.contains_key(uri@),
            },
    {
        match self.doc_index.get(uri) {
            Some(existing) => Some(existing.copied()),
            None => None,
        }
    }

    /// Takes the store's answer to [`MetadataStep::Write`]. The index changes only where the
    /// store did. No counter changes: the document is counted when it is skipped.
    pub fn persist_metadata_write(
        &mut self,
        write: MetadataWrite,
        what: &str,
        stored: Result<(), Error>,
    ) -> (r: MetadataWriteOutcome)
        requires
            old(self).wf(),
        ensures
            final(self).wf(),
            match stored {
                Ok(_) => r is Written && final(self)@ == old(self)@.recorded(write@.updated),
                Err(e) => {
                    &&& r@ == WriteOutcomeView::Failed(
                        "error persisting "@ + what@ + " for '"@ + write@.updated.uri + "': "@
                            + e@.display(),
                    )
                    &&& final(self)@ == old(self)@
                },
            },
    {
        match stored {
            Ok(_) => {
                self.doc_index.upsert(write.updated);
                MetadataWriteOutcome::Written
            },
            Err(e) => {
                let head = text::concat5(
                    "error persisting ",
                    what,
                    " for '",
                    write.updated.uri.as_str(),
                    "': ",
                );
                MetadataWriteOutcome::Failed(text::concat(head.as_str(), e.to_string().as_str()))
            },
        }
    }
}

/// The outcome of indexing as a mathematical value.
pub open spec fn indexed_view(outcome: Result<IndexOutcome, Error>) -> Result<
    Option<(usize, Seq<char>)>,
    ErrorView,
> {
    match outcome {
        Ok(IndexOutcome::Empty) => Ok(None),
        Ok(IndexOutcome::Written(n, h)) => Ok(Some((n, h@))),
        Err(e) => Err(e@),
    }
}

/// Folds new validators into a document's persisted state, once it was read.
pub fn fold_validators(plan: ValidatorsPlan, read: Result<Option<ResourceRecord>, Error>) -> (r:
    MetadataStep)
    ensures
        r@ == validators_step(
            plan.existing@,
            text::opt_view(plan.etag),
            text::opt_view(plan.last_modified),
            read_view(read),
        ),
{
    let ValidatorsPlan { existing, etag, last_modified } = plan;
    match read {
        Ok(Some(persisted)) => {
            let metadata_hash = ids::compute_metadata_hash(
                persisted.metadata.json.as_str(),
                text::borrow_opt(&persisted.external_id),
                text::borrow_opt(&etag),
                text::borrow_opt(&persisted.modified_at),
            );
            let mut record = persisted;
            record.external_etag = text::clone_opt(&etag);
            record.external_last_modified = text::clone_opt(&last_modified);
            let resource_id = existing.resource_id.clone();
            let mut updated = existing;
            updated.metadata_hash = metadata_hash;
            updated.external_etag = etag;
            updated.external_last_modified = last_modified;
            MetadataStep::Write(MetadataWrite { resource_id, record, updated })
        },
        Ok(None) => MetadataStep::Done(MetadataWriteOutcome::Unchanged),
        Err(e) => MetadataStep::Done(
            MetadataWriteOutcome::Failed(
                read_failure(
                    existing.uri.as_str(),
                    "' to refresh conditional-GET validators: ",
                    &e,
                ),
            ),
        ),
    }
}

fn read_failure(uri: &str, purpose: &str, e: &Error) -> (r: String)
    ensures
        r@ == "error reading resource '"@ + uri@ + purpose@ + e@.display(),
{
    let head = text::concat3("error reading resource '", uri, purpose);
    text::concat(head.as_str(), e.to_string().as_str())
}

/// Folds refreshed metadata into a document's persisted state. `read` is the metadata that
/// was read, with the refresh applied to it.
pub fn fold_metadata(
    existing: DocumentRecord,
    external_id: Option<&str>,
    modified_at: Option<&str>,
    read: Result<Option<Metadata>, Error>,
) -> (r: MetadataStep)
    ensures
        r@ == enrichment_step(
            existing@,
            text::opt_str_view(external_id),
            text::opt_str_view(modified_at),
            match read {
                Ok(Some(m)) => Ok(Some(m@)),
                Ok(None) => Ok(None),
                Err(e) => Err(e@),
            },
        ),
{
    match read {
        Ok(Some(metadata)) => {
            let metadata_hash = ids::compute_metadata_hash(
                metadata.json.as_str(),
                external_id,
                text::borrow_opt(&existing.external_etag),
                modified_at,
            );
            if text::str_eq(metadata_hash.as_str(), existing.metadata_hash.as_str()) {
                return MetadataStep::Done(MetadataWriteOutcome::Unchanged);
            }
            let date_original = text::clone_opt(&metadata.date);
            let record = ResourceRecord {
                date_parsed: resource::parse_date(&date_original),
                date_original,
                metadata,
                external_id: text::owned_opt(external_id),
                external_etag: text::clone_opt(&existing.external_etag),
                external_last_modified: text::clone_opt(&existing.external_last_modified),
                modified_at: text::owned_opt(modified_at),
            };
            let resource_id = existing.resource_id.clone();
            let mut updated = existing;
            updated.metadata_hash = metadata_hash;
            MetadataStep::Write(MetadataWrite { resource_id, record, updated })
        },
        Ok(None) => MetadataStep::Done(MetadataWriteOutcome::Unchanged),
        Err(e) => MetadataStep::Done(
            MetadataWriteOutcome::Failed(
                read_failure(existing.uri.as_str(), "' to refresh source-supplied metadata: ", &e),
            ),
        ),
    }
}

// ---------------------------------------------------------------------------
// Laws
// ---------------------------------------------------------------------------
/// Every record is found under its own URI.
pub open spec fn keyed_by_uri(index: Map<Seq<char>, records::DocView>) -> bool {
    forall|u: Seq<char>| #[trigger] index.contains_key(u) ==> index[u].uri == u
}

/// The index of a run keeps every record under its own URI.
pub proof fn runs_are_keyed_by_uri(run: PipelineCallback)
    requires
        run.wf(),
    ensures
        keyed_by_uri(run@.index),
{
    run.doc_index.records_have_their_uris();
}

/// A resource that was indexed is left alone by the next run that delivers it unchanged,
/// under the same policy.
pub proof fn indexed_resources_are_left_alone(
    run: RunView,
    res: resource::ResourceView,
    chunks: usize,
)
    ensures
        run.indexed(res, Ok(Some((chunks, res.metadata_hash())))).step(res) == StepView::Unchanged,
{
}

/// A resource whose metadata was written is left alone the next time.
pub proof fn written_metadata_is_left_alone(run: RunView, res: resource::ResourceView)
    requires
        keyed_by_uri(run.index),
        run.step(res) is UpdateMetadata,
    ensures
        run.metadata_written(run.step(res)->UpdateMetadata_0, true).step(res)
            == StepView::Unchanged,
{
}

/// Where a resource has no chunks, or the store or the embedder failed, the index stays as
/// it is: what was indexed before stays indexed.
pub proof fn failures_keep_the_index(
    run: RunView,
    res: resource::ResourceView,
    outcome: Result<Option<(usize, Seq<char>)>, ErrorView>,
    w: WriteView,
)
    requires
        !(outcome matches Ok(Some(_))),
    ensures
        run.indexed(res, outcome).index == run.index,
        run.metadata_written(w, false).index == run.index,
{
}

/// A document keeps its content, policy and owner when only its metadata is written.
pub proof fn metadata_writes_keep_the_content(run: RunView, res: resource::ResourceView)
    requires
        keyed_by_uri(run.index),
        run.step(res) is UpdateMetadata,
    ensures
        ({
            let before = run.index[res.uri];
            let after = run.metadata_written(run.step(res)->UpdateMetadata_0, true).index[res.uri];
            &&& after.content_hash == before.content_hash
            &&& after.policy_version == before.policy_version
            &&& after.source_id == before.source_id
            &&& after.resource_id == before.resource_id
        }),
{
}

/// Validators that were folded in and written are those that the document is fetched with
/// the next time. Validators that did not come are kept.
pub proof fn refreshed_validators_are_used(
    run: RunView,
    uri: Seq<char>,
    meta: records::ValidatorsView,
    persisted: records::ResourceRecordView,
)
    requires
        keyed_by_uri(run.index),
        run.new_validators(uri, meta) is Some,
        run.index[uri].policy_version == run.policy_version,
    ensures
        ({
            let v = run.new_validators(uri, meta)->0;
            let w = revalidated(run.index[uri], persisted, v.etag, v.last_modified);
            &&& run.recorded(w.updated).fetch_metadata(uri) == v
            &&& v.etag == first_of(meta.etag, run.fetch_metadata(uri).etag)
            &&& v.last_modified == first_of(meta.last_modified, run.fetch_metadata(uri).last_modified)
        }),
{
}

/// The documents that were counted as one thing or another.
pub open spec fn outcomes(r: records::ResultView) -> int {
    r.docs_skipped + r.docs_indexed + r.docs_metadata_updated + r.unsupported_format_count
        + r.error_count
}

/// Every document that comes up is counted as seen and under exactly one outcome.
pub proof fn documents_are_counted_once(run: RunView, uri: Seq<char>, outcome: DocOutcome)
    requires
        run.result.docs_seen < u64::MAX,
        outcomes(run.result) < u64::MAX,
    ensures
        ({
            let after = run.started(uri).finished(uri, outcome).result;
            &&& after.docs_seen == run.result.docs_seen + 1
            &&& outcomes(after) == outcomes(run.result) + 1
        }),
{
}

} // verus!
