//! Indexing of one resource: from its blocks to the records of a store.

use super::records;
use super::records::{Metadata, Provenance, ResourceRecord};
use crate::block;
use crate::block::Block;
use crate::chunker::blocks;
use crate::chunker::config;
use crate::chunker::output;
use crate::chunker::preset;
use crate::chunker::{preset_for, CharSizer, ChunkOutput, ChunkSizer, ChunkerConfig};
use crate::dates;
use crate::error::{Error, ErrorView};
use crate::ids;
use crate::text;
use crate::urls;
use vstd::prelude::*;

verus! {

/// What a run indexes with.
#[derive(Debug, Clone)]
pub struct IngestionConfig {
    pub store_id: String,
    pub policy_version: String,
    pub chunker: ChunkerConfig,
}

/// A resource as an ingestor delivers it.
#[derive(Debug, Clone)]
pub struct Resource {
    pub id: String,
    pub source_id: String,
    pub uri: String,
    pub mime: Option<String>,
    pub content_hash: String,
    pub blocks: Vec<Block>,
    /// The metadata as it is persisted, with the title of [`backfilled_title`].
    pub metadata: Metadata,
    pub external_id: Option<String>,
    pub external_etag: Option<String>,
    pub external_last_modified: Option<String>,
    pub modified_at: Option<String>,
    pub added_at: String,
    /// Kind of the ingestor that delivered it.
    pub ingestor_kind: String,
}

/// A resource as a mathematical value.
pub struct ResourceView {
    pub id: Seq<char>,
    pub source_id: Seq<char>,
    pub uri: Seq<char>,
    pub mime: Option<Seq<char>>,
    pub content_hash: Seq<char>,
    pub blocks: Seq<block::BlockView>,
    pub metadata: records::MetadataView,
    pub external_id: Option<Seq<char>>,
    pub external_etag: Option<Seq<char>>,
    pub external_last_modified: Option<Seq<char>>,
    pub modified_at: Option<Seq<char>>,
    pub added_at: Seq<char>,
    pub ingestor_kind: Seq<char>,
}

impl View for Resource {
    type V = ResourceView;

    open spec fn view(&self) -> ResourceView {
        ResourceView {
            id: self.id@,
            source_id: self.source_id@,
            uri: self.uri@,
            mime: text::opt_view(self.mime),
            content_hash: self.content_hash@,
            blocks: block::block_views(self.blocks@),
            metadata: self.metadata@,
            external_id: text::opt_view(self.external_id),
            external_etag: text::opt_view(self.external_etag),
            external_last_modified: text::opt_view(self.external_last_modified),
            modified_at: text::opt_view(self.modified_at),
            added_at: self.added_at@,
            ingestor_kind: self.ingestor_kind@,
        }
    }
}

// ---------------------------------------------------------------------------
// Metadata
// ---------------------------------------------------------------------------
/// The title to persist: the metadata's own, or else the resource's.
pub fn backfilled_title(own: Option<&str>, resource_title: Option<&str>) -> (r: Option<String>)
    ensures
        text::opt_view(r) == (match text::opt_str_view(own) {
            Some(t) => Some(t),
            None => text::opt_str_view(resource_title),
        }),
{
    match own {
        Some(t) => Some(t.to_owned()),
        None => text::owned_opt(resource_title),
    }
}

/// The sortable form of an optional date.
pub open spec fn sortable_date(date: Option<Seq<char>>) -> Option<Seq<char>> {
    match date {
        Some(d) => dates::partial_iso8601(d),
        None => None,
    }
}

/// The sortable form of an optional date.
pub fn parse_date(date: &Option<String>) -> (r: Option<String>)
    ensures
        text::opt_view(r) == sortable_date(text::opt_view(*date)),
{
    match date {
        Some(d) => dates::parse_partial_iso8601(d.as_str()),
        None => None,
    }
}

/// The hash of a metadata state.
pub open spec fn state_hash(
    metadata: records::MetadataView,
    external_id: Option<Seq<char>>,
    external_etag: Option<Seq<char>>,
    modified_at: Option<Seq<char>>,
) -> Seq<char> {
    ids::content_hash_of(
        ids::metadata_hash_input(metadata.json, external_id, external_etag, modified_at),
    )
}

impl ResourceView {
    /// The hash of the metadata state that the resource would be persisted with.
    pub open spec fn metadata_hash(self) -> Seq<char> {
        state_hash(self.metadata, self.external_id, self.external_etag, self.modified_at)
    }

    /// The metadata state that the resource is persisted with.
    pub open spec fn persisted(self) -> records::ResourceRecordView {
        records::ResourceRecordView {
            metadata: self.metadata,
            external_id: self.external_id,
            external_etag: self.external_etag,
            external_last_modified: self.external_last_modified,
            modified_at: self.modified_at,
            date_original: self.metadata.date,
            date_parsed: sortable_date(self.metadata.date),
        }
    }
}

/// A resource's metadata state, and its hash.
pub struct DerivedResourceState {
    pub record: ResourceRecord,
    pub metadata_hash: String,
}

/// The metadata state that a resource is persisted with, and its hash.
pub fn derive_resource_state(resource: &Resource) -> (r: DerivedResourceState)
    ensures
        r.record@ == resource@.persisted(),
        r.metadata_hash@ == resource@.metadata_hash(),
{
    let metadata_hash = ids::compute_metadata_hash(
        resource.metadata.json.as_str(),
        text::borrow_opt(&resource.external_id),
        text::borrow_opt(&resource.external_etag),
        text::borrow_opt(&resource.modified_at),
    );
    let record = ResourceRecord {
        metadata: resource.metadata.copied(),
        external_id: text::clone_opt(&resource.external_id),
        external_etag: text::clone_opt(&resource.external_etag),
        external_last_modified: text::clone_opt(&resource.external_last_modified),
        modified_at: text::clone_opt(&resource.modified_at),
        date_original: text::clone_opt(&resource.metadata.date),
        date_parsed: parse_date(&resource.metadata.date),
    };
    DerivedResourceState { record, metadata_hash }
}

// ---------------------------------------------------------------------------
// Chunks
// ---------------------------------------------------------------------------
/// Four characters for a token, as far as a number goes.
pub open spec fn in_chars(tokens: nat) -> usize {
    if tokens * 4 > usize::MAX {
        usize::MAX
    } else {
        (tokens * 4) as usize
    }
}

/// The configuration where characters are counted in place of tokens. Only the prose preset
/// counts tokens.
pub open spec fn scaled(c: config::ConfigView) -> config::ConfigView {
    if c.preset != "prose"@ {
        c
    } else {
        config::ConfigView {
            target_tokens: Some(in_chars(c.target())),
            overlap_tokens: Some(in_chars(c.overlap())),
            ..c
        }
    }
}

fn to_chars(tokens: usize) -> (r: usize)
    ensures
        r == in_chars(tokens as nat),
{
    if tokens > usize::MAX / 4 {
        usize::MAX
    } else {
        tokens * 4
    }
}

/// The configuration where characters are counted in place of tokens.
pub fn scale_to_chars(config: &ChunkerConfig) -> (r: ChunkerConfig)
    ensures
        r@ == scaled(config@),
{
    if !text::str_eq(config.preset.as_str(), "prose") {
        return config.copied();
    }
    ChunkerConfig {
        preset: config.preset.clone(),
        target_tokens: Some(to_chars(config.resolved_target_tokens())),
        overlap_tokens: Some(to_chars(config.resolved_overlap_tokens())),
        window_turns: config.window_turns,
        stride_turns: config.stride_turns,
    }
}

/// The configuration for a resource: a source that is set to prose gets the code preset for
/// code, by file name and MIME type.
pub open spec fn effective_config(
    source_preset: Seq<char>,
    base: config::ConfigView,
    filename: Option<Seq<char>>,
    mime: Option<Seq<char>>,
) -> config::ConfigView {
    if source_preset == "prose"@ && preset::preset_of(filename, mime) == "code"@ {
        config::ConfigView::code()
    } else {
        base
    }
}

/// The configuration for a resource.
pub fn effective_chunker_config(
    source_preset: &str,
    base_chunker: &ChunkerConfig,
    filename_hint: Option<&str>,
    mime: Option<&str>,
) -> (r: ChunkerConfig)
    ensures
        r@ == effective_config(
            source_preset@,
            base_chunker@,
            text::opt_str_view(filename_hint),
            text::opt_str_view(mime),
        ),
{
    if !text::str_eq(source_preset, "prose") {
        return base_chunker.copied();
    }
    if text::str_eq(preset_for(filename_hint, mime), "code") {
        ChunkerConfig::code()
    } else {
        base_chunker.copied()
    }
}

/// The chunks of a resource. With a token counter, prose is measured in tokens; without one
/// in characters, four for a token.
pub open spec fn resource_chunks(
    resource: ResourceView,
    source_preset: Seq<char>,
    base: config::ConfigView,
    tokens: Option<spec_fn(Seq<char>) -> nat>,
) -> Seq<output::ChunkView> {
    let c = effective_config(
        source_preset,
        base,
        urls::name_in(urls::url_parts(resource.uri)),
        resource.mime,
    );
    match tokens {
        Some(measure) => blocks::document_chunks(resource.id, resource.blocks, c, measure),
        None => blocks::document_chunks(
            resource.id,
            resource.blocks,
            scaled(c),
            CharSizer.measure(),
        ),
    }
}

/// Takes a resource apart into chunks. `token_counter` is the tokenizer of the embedding
/// model, where there is one.
pub fn chunk_resource<S: ChunkSizer>(
    resource: &Resource,
    source_preset: &str,
    config: &IngestionConfig,
    token_counter: Option<&S>,
) -> (r: Result<Vec<ChunkOutput>, Error>)
    ensures
        r is Ok,
        output::chunk_views(r->Ok_0@) == resource_chunks(
            resource@,
            source_preset@,
            config.chunker@,
            match token_counter {
                Some(s) => Some(s.measure()),
                None => None,
            },
        ),
{
    let hint = urls::filename_hint_from_uri(resource.uri.as_str());
    let effective = effective_chunker_config(
        source_preset,
        &config.chunker,
        text::borrow_opt(&hint),
        text::borrow_opt(&resource.mime),
    );
    match token_counter {
        Some(sizer) => blocks::chunk_blocks(
            resource.id.as_str(),
            resource.blocks.as_slice(),
            &effective,
            sizer,
        ),
        None => blocks::chunk_blocks(
            resource.id.as_str(),
            resource.blocks.as_slice(),
            &scale_to_chars(&effective),
            &CharSizer,
        ),
    }
}

// ---------------------------------------------------------------------------
// Embedding
// ---------------------------------------------------------------------------
/// The texts of blocks, one after the other.
pub open spec fn block_texts(blocks: Seq<block::BlockView>) -> Seq<Seq<char>> {
    Seq::new(blocks.len(), |i: int| blocks[i].text)
}

/// The texts of chunks, one after the other.
pub open spec fn chunk_texts(chunks: Seq<output::ChunkView>) -> Seq<Seq<char>> {
    Seq::new(chunks.len(), |i: int| chunks[i].text)
}

/// What an embedder gets of a document.
#[derive(Debug, Clone, PartialEq, Eq)]
pub struct DocumentChunks {
    /// The whole text: its blocks, with an empty line between each two of them.
    pub document_context: String,
    /// The texts of its chunks.
    pub chunks: Vec<String>,
}

/// What an embedder gets of a resource; `None` for a resource without chunks, of which
/// nothing is embedded, written or deleted.
pub fn embedder_input(resource: &Resource, chunks: &Vec<ChunkOutput>) -> (r: Option<DocumentChunks>)
    ensures
        r is None <==> chunks@.len() == 0,
        r matches Some(d) ==> {
            &&& d.document_context@ == text::joined(block_texts(resource@.blocks), "\n\n"@)
            &&& text::views(d.chunks@) == chunk_texts(output::chunk_views(chunks@))
        },
{
    if chunks.len() == 0 {
        return None;
    }
    let mut texts: Vec<String> = Vec::new();
    let mut i: usize = 0;
    while i < resource.blocks.len()
        invariant
            i <= resource.blocks@.len(),
            texts@.len() == i,
            forall|j: int| 0 <= j < i ==> (#[trigger] texts@[j])@ == resource.blocks@[j].text@,
        decreases resource.blocks.len() - i,
    {
        texts.push(resource.blocks[i].text.clone());
        i += 1;
    }
    assert(text::views(texts@) =~= block_texts(resource@.blocks));
    let document_context = text::join_range(&texts, 0, texts.len(), "\n\n");
    assert(text::views(texts@).subrange(0, texts@.len() as int) =~= text::views(texts@));
    let mut out: Vec<String> = Vec::new();
    let mut k: usize = 0;
    while k < chunks.len()
        invariant
            k <= chunks@.len(),
            out@.len() == k,
            forall|j: int| 0 <= j < k ==> (#[trigger] out@[j])@ == chunks@[j].text@,
        decreases chunks.len() - k,
    {
        out.push(chunks[k].text.clone());
        k += 1;
    }
    assert(text::views(out@) =~= chunk_texts(output::chunk_views(chunks@)));
    Some(DocumentChunks { document_context, chunks: out })
}

/// Whether what an embedder returned fits: one document, with a vector for each chunk.
pub open spec fn embedding_error(vectors: Seq<usize>, chunks: nat) -> Option<ErrorView> {
    if vectors.len() != 1 {
        Some(
            ErrorView::Internal {
                message: "embedder returned "@ + text::decimal(vectors.len())
                    + " EmbeddedDocuments for 1 input document"@,
                correlation_id: "embed_count_mismatch"@,
            },
        )
    } else if vectors[0] != chunks {
        Some(
            ErrorView::Internal {
                message: "embedder returned "@ + text::decimal(vectors[0] as nat) + " vectors for "@
                    + text::decimal(chunks) + " chunks"@,
                correlation_id: "embed_chunk_count_mismatch"@,
            },
        )
    } else {
        None
    }
}

/// Checks what an embedder returned: how many vectors for each document, against the number
/// of chunks.
pub fn check_embeddings(vectors: &[usize], chunks: usize) -> (r: Result<(), Error>)
    ensures
        match embedding_error(vectors@, chunks as nat) {
            Some(e) => r is Err && r->Err_0@ == e,
            None => r is Ok,
        },
{
    if vectors.len() != 1 {
        return Err(
            Error::Internal {
                message: text::concat3(
                    "embedder returned ",
                    text::decimal_string(vectors.len() as u64).as_str(),
                    " EmbeddedDocuments for 1 input document",
                ),
                correlation_id: "embed_count_mismatch".to_owned(),
            },
        );
    }
    if vectors[0] != chunks {
        return Err(
            Error::Internal {
                message: text::concat5(
                    "embedder returned ",
                    text::decimal_string(vectors[0] as u64).as_str(),
                    " vectors for ",
                    text::decimal_string(chunks as u64).as_str(),
                    " chunks",
                ),
                correlation_id: "embed_chunk_count_mismatch".to_owned(),
            },
        );
    }
    Ok(())
}

// ---------------------------------------------------------------------------
// Records
// ---------------------------------------------------------------------------
/// A chunk as a store keeps it, without its vector.
#[derive(Debug, Clone)]
pub struct ChunkRecord {
    pub chunk: ChunkOutput,
    pub resource_id: String,
    pub store_id: String,
    pub policy_version: String,
    pub provenance: Provenance,
    pub uri: String,
    pub mime: Option<String>,
    /// The page that the chunk's block was found on.
    pub page: Option<u32>,
    /// The metadata state of the resource.
    pub resource: ResourceRecord,
}

/// A chunk's record as a mathematical value.
#[verifier::ext_equal]
pub struct ChunkRecordView {
    pub chunk: output::ChunkView,
    pub resource_id: Seq<char>,
    pub store_id: Seq<char>,
    pub policy_version: Seq<char>,
    pub provenance: records::ProvenanceView,
    pub uri: Seq<char>,
    pub mime: Option<Seq<char>>,
    pub page: Option<u32>,
    pub resource: records::ResourceRecordView,
}

impl View for ChunkRecord {
    type V = ChunkRecordView;

    open spec fn view(&self) -> ChunkRecordView {
        ChunkRecordView {
            chunk: self.chunk@,
            resource_id: self.resource_id@,
            store_id: self.store_id@,
            policy_version: self.policy_version@,
            provenance: self.provenance@,
            uri: self.uri@,
            mime: text::opt_view(self.mime),
            page: self.page,
            resource: self.resource@,
        }
    }
}

/// The page of the last of the first `n` blocks that has this number and a page.
pub open spec fn page_of(blocks: Seq<block::BlockView>, seq: u32, n: int) -> Option<u32>
    decreases n,
{
    if n <= 0 || n > blocks.len() {
        None
    } else if blocks[n - 1].seq == seq && blocks[n - 1].page is Some {
        blocks[n - 1].page
    } else {
        page_of(blocks, seq, n - 1)
    }
}

fn page_by_seq(blocks: &Vec<Block>, seq: u32) -> (r: Option<u32>)
    ensures
        r == page_of(block::block_views(blocks@), seq, blocks@.len() as int),
{
    let ghost vs = block::block_views(blocks@);
    let mut n: usize = blocks.len();
    while n > 0
        invariant
            n <= blocks@.len(),
            vs == block::block_views(blocks@),
            page_of(vs, seq, blocks@.len() as int) == page_of(vs, seq, n as int),
        decreases n,
    {
        let b = &blocks[n - 1];
        assert(b@ == vs[n - 1]);
        if b.seq == seq {
            match &b.location {
                Some(location) => match location.page {
                    Some(page) => return Some(page),
                    None => {},
                },
                None => {},
            }
        }
        n -= 1;
    }
    None
}

/// The provenance of a resource's chunks.
pub open spec fn provenance_of(resource: ResourceView, store_id: Seq<char>) -> records::ProvenanceView {
    records::ProvenanceView {
        origin_store: store_id,
        source_id: resource.source_id,
        source_kind: resource.ingestor_kind,
        fetched_at: resource.added_at,
        content_hash: resource.content_hash,
        share_path: Seq::empty(),
    }
}

/// The record of a resource's chunk.
pub open spec fn record_of(
    resource: ResourceView,
    store_id: Seq<char>,
    policy_version: Seq<char>,
    chunk: output::ChunkView,
) -> ChunkRecordView {
    ChunkRecordView {
        chunk,
        resource_id: resource.id,
        store_id,
        policy_version,
        provenance: provenance_of(resource, store_id),
        uri: resource.uri,
        mime: resource.mime,
        page: page_of(resource.blocks, chunk.block_seq, resource.blocks.len() as int),
        resource: resource.persisted(),
    }
}

/// The records of a resource's chunks, in the order of the chunks.
pub fn chunk_records(resource: &Resource, config: &IngestionConfig, chunks: &Vec<ChunkOutput>) -> (r:
    Vec<ChunkRecord>)
    ensures
        r@.len() == chunks@.len(),
        forall|i: int|
            0 <= i < r@.len() ==> (#[trigger] r@[i])@ == record_of(
                resource@,
                config.store_id@,
                config.policy_version@,
                chunks@[i]@,
            ),
        forall|i: int|
            0 <= i < r@.len() ==> (#[trigger] r@[i]).uri@ == resource.uri@ && r@[i].resource_id@
                == resource.id@,
{
    let derived = derive_resource_state(resource);
    let mut out: Vec<ChunkRecord> = Vec::new();
    let mut i: usize = 0;
    while i < chunks.len()
        invariant
            i <= chunks@.len(),
            out@.len() == i,
            derived.record@ == resource@.persisted(),
            forall|j: int|
                0 <= j < i ==> (#[trigger] out@[j])@ == record_of(
                    resource@,
                    config.store_id@,
                    config.policy_version@,
                    chunks@[j]@,
                ),
            forall|j: int|
                0 <= j < i ==> (#[trigger] out@[j]).uri@ == resource.uri@ && out@[j].resource_id@
                    == resource.id@,
        decreases chunks.len() - i,
    {
        let provenance = Provenance {
            origin_store: config.store_id.clone(),
            source_id: resource.source_id.clone(),
            source_kind: resource.ingestor_kind.clone(),
            fetched_at: resource.added_at.clone(),
            content_hash: resource.content_hash.clone(),
            share_path: Vec::new(),
        };
        assert(text::views(provenance.share_path@) =~= Seq::<Seq<char>>::empty());
        let record = ChunkRecord {
            chunk: chunks[i].copied(),
            resource_id: resource.id.clone(),
            store_id: config.store_id.clone(),
            policy_version: config.policy_version.clone(),
            provenance,
            uri: resource.uri.clone(),
            mime: text::clone_opt(&resource.mime),
            page: page_by_seq(&resource.blocks, chunks[i].block_seq),
            resource: derived.record.copied(),
        };
        out.push(record);
        i += 1;
    }
    out
}

// ---------------------------------------------------------------------------
// The whole of it
// ---------------------------------------------------------------------------
/// A resource that is ready to be embedded.
pub struct PreparedResource {
    pub chunks: Vec<ChunkOutput>,
    pub input: DocumentChunks,
}

/// A resource that is ready to be written.
pub struct EmbeddedResource {
    /// One record for each chunk, to be joined by its vector.
    pub records: Vec<ChunkRecord>,
    /// What indexing comes to once the records are written.
    pub outcome: IndexOutcome,
}

/// What indexing a resource came to.
#[derive(Debug, Clone, PartialEq, Eq)]
pub enum IndexOutcome {
    /// So many chunks were written, with this metadata hash.
    Written(usize, String),
    /// The resource has no chunks; nothing was written or deleted.
    Empty,
}

/// First half of indexing a resource: takes it apart, and says what to embed. `None` for a
/// resource without chunks, which is left alone, and what is indexed for it too.
pub fn prepare_resource<S: ChunkSizer>(
    resource: &Resource,
    source_preset: &str,
    config: &IngestionConfig,
    token_counter: Option<&S>,
) -> (r: Result<Option<PreparedResource>, Error>)
    ensures
        r is Ok,
        ({
            let chunks = resource_chunks(
                resource@,
                source_preset@,
                config.chunker@,
                match token_counter {
                    Some(s) => Some(s.measure()),
                    None => None,
                },
            );
            match r->Ok_0 {
                Some(p) => {
                    &&& chunks.len() > 0
                    &&& output::chunk_views(p.chunks@) == chunks
                    &&& p.input.document_context@ == text::joined(
                        block_texts(resource@.blocks),
                        "\n\n"@,
                    )
                    &&& text::views(p.input.chunks@) == chunk_texts(chunks)
                },
                None => chunks.len() == 0,
            }
        }),
{
    let chunks = match chunk_resource(resource, source_preset, config, token_counter) {
        Ok(chunks) => chunks,
        Err(e) => return Err(e),
    };
    match embedder_input(resource, &chunks) {
        Some(input) => Ok(Some(PreparedResource { chunks, input })),
        None => Ok(None),
    }
}

/// Second half: checks what the embedder returned, by the number of vectors for each
/// document, and says what to write.
pub fn finish_resource(
    resource: &Resource,
    config: &IngestionConfig,
    prepared: &PreparedResource,
    vectors: &[usize],
) -> (r: Result<EmbeddedResource, Error>)
    ensures
        match embedding_error(vectors@, prepared.chunks@.len()) {
            Some(e) => r is Err && r->Err_0@ == e,
            None => {
                &&& r is Ok
                &&& r->Ok_0.records@.len() == prepared.chunks@.len()
                &&& forall|i: int|
                    0 <= i < prepared.chunks@.len() ==> (#[trigger] r->Ok_0.records@[i])@
                        == record_of(
                        resource@,
                        config.store_id@,
                        config.policy_version@,
                        prepared.chunks@[i]@,
                    )
                &&& forall|i: int|
                    0 <= i < prepared.chunks@.len() ==> (#[trigger] r->Ok_0.records@[i]).uri@
                        == resource.uri@
                &&& r->Ok_0.outcome matches IndexOutcome::Written(n, hash) && n
                    == prepared.chunks@.len() && hash@ == resource@.metadata_hash()
            },
        },
{
    match check_embeddings(vectors, prepared.chunks.len()) {
        Ok(_) => {},
        Err(e) => return Err(e),
    }
    let records = chunk_records(resource, config, &prepared.chunks);
    let hash = derive_resource_state(resource).metadata_hash;
    let outcome = IndexOutcome::Written(records.len(), hash);
    Ok(EmbeddedResource { records, outcome })
}

} // verus!
