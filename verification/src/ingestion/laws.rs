//! What ingestion promises, in terms of what goes in and what comes out.

use super::globs;
use super::globs::{EntryAction, EntryKind};
use super::jobs;
use super::liveness;
use super::liveness::FetchResult;
use super::pipeline;
use super::pipeline::{RunView, StepView, WriteOutcomeView, WriteView};
use super::records;
use super::resource;
use super::source;
use super::source::{DocOutcome, SkipReason};
use crate::chunker::blocks;
use crate::chunker::config;
use crate::chunker::output;
use crate::chunker::preset;
use crate::chunker::{CharSizer, ChunkSizer};
use crate::dates;
use crate::error::{Error, ErrorView};
use crate::ids;
use crate::urls;
use vstd::prelude::*;

verus! {

// ---------------------------------------------------------------------------
// Records
// ---------------------------------------------------------------------------
/// A chunk's record cites its resource: by the resource's own URI, id, MIME type and content,
/// and by the source and the store that it came through. The chunk itself is kept as it is.
pub proof fn records_cite_their_resource(
    res: resource::ResourceView,
    store_id: Seq<char>,
    policy_version: Seq<char>,
    chunk: output::ChunkView,
)
    ensures
        ({
            let r = resource::record_of(res, store_id, policy_version, chunk);
            &&& r.uri == res.uri
            &&& r.resource_id == res.id
            &&& r.mime == res.mime
            &&& r.chunk == chunk
            &&& r.store_id == store_id
            &&& r.policy_version == policy_version
            &&& r.provenance.origin_store == store_id
            &&& r.provenance.source_id == res.source_id
            &&& r.provenance.source_kind == res.ingestor_kind
            &&& r.provenance.fetched_at == res.added_at
            &&& r.provenance.content_hash == res.content_hash
            &&& r.provenance.share_path.len() == 0
        }),
{
}

/// A record carries the metadata of its resource, and the date in both forms.
pub proof fn records_carry_the_metadata(
    res: resource::ResourceView,
    store_id: Seq<char>,
    policy_version: Seq<char>,
    chunk: output::ChunkView,
)
    ensures
        ({
            let r = resource::record_of(res, store_id, policy_version, chunk).resource;
            &&& r.metadata == res.metadata
            &&& r.external_id == res.external_id
            &&& r.external_etag == res.external_etag
            &&& r.external_last_modified == res.external_last_modified
            &&& r.modified_at == res.modified_at
            &&& r.date_original == res.metadata.date
            &&& res.metadata.date matches Some(d) ==> r.date_parsed == dates::partial_iso8601(d)
            &&& res.metadata.date is None ==> r.date_parsed is None
        }),
{
}

/// What the index of a run says of a document is what its chunks' records say: they bear one
/// URI, the resource's own, and the same ids, content, policy and validators.
pub proof fn the_index_agrees_with_the_records(
    run: RunView,
    res: resource::ResourceView,
    chunks: usize,
    metadata_hash: Seq<char>,
    chunk: output::ChunkView,
)
    ensures
        ({
            let r = resource::record_of(res, run.store_id, run.policy_version, chunk);
            let after = run.indexed(res, Ok(Some((chunks, metadata_hash)))).index;
            &&& after.contains_key(res.uri)
            &&& after[res.uri].uri == res.uri
            &&& r.uri == res.uri
            &&& after[r.uri].resource_id == r.resource_id
            &&& after[r.uri].source_id == r.provenance.source_id
            &&& after[r.uri].content_hash == r.provenance.content_hash
            &&& after[r.uri].policy_version == r.policy_version
            &&& after[r.uri].external_etag == r.resource.external_etag
            &&& after[r.uri].external_last_modified == r.resource.external_last_modified
            &&& after[r.uri].metadata_hash == metadata_hash
            &&& forall|u: Seq<char>|
                u != res.uri ==> (#[trigger] after.contains_key(u) == run.index.contains_key(u)
                    && (after.contains_key(u) ==> after[u] == run.index[u]))
        }),
{
}

proof fn lemma_page(blocks: Seq<crate::block::BlockView>, seq: u32, n: int)
    requires
        0 <= n <= blocks.len(),
    ensures
        match resource::page_of(blocks, seq, n) {
            Some(page) => exists|k: int|
                0 <= k < n && (#[trigger] blocks[k]).seq == seq && blocks[k].page == Some(page)
                    && forall|j: int|
                    k < j < n && (#[trigger] blocks[j]).seq == seq ==> blocks[j].page is None,
            None => forall|j: int|
                0 <= j < n && (#[trigger] blocks[j]).seq == seq ==> blocks[j].page is None,
        },
    decreases n,
{
    if n > 0 {
        if !(blocks[n - 1].seq == seq && blocks[n - 1].page is Some) {
            lemma_page(blocks, seq, n - 1);
        }
    }
}

/// A record has the page of its chunk's block: that of the last block of the number that has
/// one, and none only where no block of the number has any.
pub proof fn records_have_the_page_of_their_block(
    res: resource::ResourceView,
    store_id: Seq<char>,
    policy_version: Seq<char>,
    chunk: output::ChunkView,
)
    ensures
        ({
            let bs = res.blocks;
            match resource::record_of(res, store_id, policy_version, chunk).page {
                Some(page) => exists|k: int|
                    0 <= k < bs.len() && (#[trigger] bs[k]).seq == chunk.block_seq && bs[k].page
                        == Some(page) && forall|j: int|
                        k < j < bs.len() && (#[trigger] bs[j]).seq == chunk.block_seq
                            ==> bs[j].page is None,
                None => forall|j: int|
                    0 <= j < bs.len() && (#[trigger] bs[j]).seq == chunk.block_seq ==> bs[j].page
                        is None,
            }
        }),
{
    lemma_page(res.blocks, chunk.block_seq, res.blocks.len() as int);
}

/// The hash of a resource's metadata is that of its serialized metadata, its external id and
/// ETag and its time of modification.
pub proof fn metadata_hashes_cover_the_persisted_state(res: resource::ResourceView)
    ensures
        res.metadata_hash() == ids::content_hash_of(
            ids::metadata_hash_input(
                res.metadata.json,
                res.external_id,
                res.external_etag,
                res.modified_at,
            ),
        ),
        res.metadata_hash() == resource::state_hash(
            res.persisted().metadata,
            res.persisted().external_id,
            res.persisted().external_etag,
            res.persisted().modified_at,
        ),
{
}

/// What an embedder returned is accepted exactly if it is one document with a vector for
/// each chunk.
pub proof fn embeddings_must_fit_the_chunks(vectors: Seq<usize>, chunks: nat)
    ensures
        resource::embedding_error(vectors, chunks) is None <==> (vectors.len() == 1 && vectors[0]
            == chunks),
{
}

// ---------------------------------------------------------------------------
// Configuration of the chunker
// ---------------------------------------------------------------------------
/// A source that is set to anything but prose keeps its configuration. One that is set to
/// prose keeps it for everything but code, which gets the code preset.
pub proof fn only_prose_sources_switch_to_code(
    source_preset: Seq<char>,
    base: config::ConfigView,
    filename: Option<Seq<char>>,
    mime: Option<Seq<char>>,
)
    ensures
        ({
            let c = resource::effective_config(source_preset, base, filename, mime);
            let is_code = preset::preset_of(filename, mime) == "code"@;
            &&& source_preset != "prose"@ ==> c == base
            &&& !is_code ==> c == base
            &&& source_preset == "prose"@ && is_code ==> c.preset == "code"@ && c.target() == 3000
                && c.overlap() == 0
        }),
{
}

/// Without a token counter a token of prose stands for four characters; other presets count
/// characters or turns anyway, and stay as they are.
pub proof fn tokens_stand_for_four_characters(c: config::ConfigView)
    ensures
        c.preset != "prose"@ ==> resource::scaled(c) == c,
        c.preset == "prose"@ ==> {
            let s = resource::scaled(c);
            &&& s.preset == "prose"@
            &&& 4 * c.target() <= usize::MAX ==> s.target() == 4 * c.target()
            &&& 4 * c.overlap() <= usize::MAX ==> s.overlap() == 4 * c.overlap()
            &&& 4 * c.target() > usize::MAX ==> s.target() == usize::MAX
            &&& 4 * c.overlap() > usize::MAX ==> s.overlap() == usize::MAX
            &&& s.window() == c.window()
            &&& s.stride() == c.stride()
        },
{
}

/// A resource is taken apart under its own id, from its own blocks. With a token counter it is
/// measured by that; the preset goes by the name at the end of its URI and by its MIME type.
pub proof fn resources_are_taken_apart_under_their_id(
    res: resource::ResourceView,
    source_preset: Seq<char>,
    base: config::ConfigView,
    measure: spec_fn(Seq<char>) -> nat,
)
    ensures
        ({
            let is_code = preset::preset_of(urls::name_in(urls::url_parts(res.uri)), res.mime)
                == "code"@;
            let with_tokens = resource::resource_chunks(res, source_preset, base, Some(measure));
            let without = resource::resource_chunks(res, source_preset, base, None);
            &&& source_preset != "prose"@ || !is_code ==> with_tokens == blocks::document_chunks(
                res.id,
                res.blocks,
                base,
                measure,
            )
            &&& source_preset == "prose"@ && is_code ==> with_tokens == blocks::document_chunks(
                res.id,
                res.blocks,
                config::ConfigView::code(),
                measure,
            )
            &&& (source_preset != "prose"@ || !is_code) && base.preset != "prose"@ ==> without
                == blocks::document_chunks(res.id, res.blocks, base, CharSizer.measure())
            &&& (source_preset != "prose"@ || !is_code) && base.preset == "prose"@ && 4
                * base.target() <= usize::MAX && 4 * base.overlap() <= usize::MAX ==> without
                == blocks::document_chunks(
                res.id,
                res.blocks,
                config::ConfigView {
                    target_tokens: Some((4 * base.target()) as usize),
                    overlap_tokens: Some((4 * base.overlap()) as usize),
                    ..base
                },
                CharSizer.measure(),
            )
            &&& forall|t: Seq<char>| #[trigger] (CharSizer.measure())(t) == t.len()
        }),
{
    reveal_strlit("prose");
    reveal_strlit("code");
    assert("prose"@.len() == 5 && "code"@.len() == 4);
}

/// Every chunk of a resource has the id that the resource's own id, its block, its text and its
/// position determine.
pub proof fn chunks_of_a_resource_bear_its_id(
    res: resource::ResourceView,
    source_preset: Seq<char>,
    base: config::ConfigView,
    tokens: Option<spec_fn(Seq<char>) -> nat>,
    i: int,
)
    requires
        0 <= i < resource::resource_chunks(res, source_preset, base, tokens).len(),
    ensures
        ({
            let c = resource::resource_chunks(res, source_preset, base, tokens)[i];
            c.id == ids::chunk_id_of(res.id, c.block_seq, c.text, c.seq_in_block)
        }),
{
}

/// An embedder gets the texts of the chunks and of the blocks, one by one.
pub proof fn embedders_get_the_texts(
    cs: Seq<output::ChunkView>,
    bs: Seq<crate::block::BlockView>,
    i: int,
)
    ensures
        resource::chunk_texts(cs).len() == cs.len(),
        0 <= i < cs.len() ==> resource::chunk_texts(cs)[i] == cs[i].text,
        resource::block_texts(bs).len() == bs.len(),
        0 <= i < bs.len() ==> resource::block_texts(bs)[i] == bs[i].text,
{
}

/// Counters count up as far as they can.
pub proof fn counters_count_up(n: u64, by: int, m: usize)
    requires
        0 <= by,
    ensures
        n + by <= u64::MAX ==> records::bumped(n, by) == n + by,
        n + by > u64::MAX ==> records::bumped(n, by) == u64::MAX,
        m < usize::MAX ==> pipeline::next_up(m) == m + 1,
        m == usize::MAX ==> pipeline::next_up(m) == m,
{
}

// ---------------------------------------------------------------------------
// What is done with a resource
// ---------------------------------------------------------------------------
/// A URI that the index does not know is indexed, and replaces nothing.
pub proof fn new_resources_are_indexed(run: RunView, res: resource::ResourceView)
    requires
        !run.index.contains_key(res.uri),
    ensures
        run.step(res) == (StepView::Index { replaces: None }),
{
}

/// New content, or content that was indexed under another policy, is indexed in place of the
/// resource that the URI had; and nothing else is.
pub proof fn changed_resources_are_indexed_anew(run: RunView, res: resource::ResourceView)
    requires
        run.index.contains_key(res.uri),
    ensures
        ({
            let known = run.index[res.uri];
            (run.step(res) is Index) == (known.content_hash != res.content_hash
                || known.policy_version != run.policy_version)
        }),
        run.step(res) matches StepView::Index { replaces } ==> replaces == Some(
            run.index[res.uri].resource_id,
        ),
{
}

/// Content that is indexed under the policy is left alone exactly if the metadata and the
/// modification stamp are those that are known. Otherwise they are written to the resource
/// that is known, as they came, and nothing else of its record changes.
pub proof fn changed_metadata_is_written(run: RunView, res: resource::ResourceView)
    requires
        run.index.contains_key(res.uri),
        run.index[res.uri].content_hash == res.content_hash,
        run.index[res.uri].policy_version == run.policy_version,
    ensures
        ({
            let known = run.index[res.uri];
            let same = known.metadata_hash == res.metadata_hash() && known.external_last_modified
                == res.external_last_modified;
            &&& same ==> run.step(res) == StepView::Unchanged
            &&& !same ==> (run.step(res) matches StepView::UpdateMetadata(w) && {
                &&& w.resource_id == known.resource_id
                &&& w.record.metadata == res.metadata
                &&& w.record.external_id == res.external_id
                &&& w.record.external_etag == res.external_etag
                &&& w.record.external_last_modified == res.external_last_modified
                &&& w.record.modified_at == res.modified_at
                &&& w.updated.metadata_hash == res.metadata_hash()
                &&& w.updated.external_etag == res.external_etag
                &&& w.updated.external_last_modified == res.external_last_modified
                &&& w.updated.uri == known.uri
                &&& w.updated.resource_id == known.resource_id
                &&& w.updated.source_id == known.source_id
                &&& w.updated.content_hash == known.content_hash
                &&& w.updated.policy_version == known.policy_version
            })
        }),
{
}

/// A document that comes up is seen from then on, and is reported with its number and with
/// how many there are. Nothing is indexed or taken for gone by that.
pub proof fn documents_that_come_up_are_seen(run: RunView, uri: Seq<char>)
    ensures
        ({
            let after = run.started(uri);
            &&& after.seen.contains(uri)
            &&& forall|u: Seq<char>|
                u != uri ==> (#[trigger] after.seen.contains(u) == run.seen.contains(u))
            &&& after.index == run.index
            &&& after.gone == run.gone
            &&& after.events.len() == run.events.len() + 1
            &&& after.events.last() == (source::EventView::DocumentStarted {
                uri,
                index: run.next,
                total: run.total,
            })
            &&& run.next < usize::MAX ==> after.next == run.next + 1
            &&& run.result.docs_seen < u64::MAX ==> after.result.docs_seen == run.result.docs_seen
                + 1
        }),
{
}

/// Every outcome is counted under its own name, and reported.
pub proof fn outcomes_are_counted_under_their_name(run: RunView, uri: Seq<char>, outcome: DocOutcome)
    requires
        run.result.docs_skipped < u64::MAX,
        run.result.docs_indexed < u64::MAX,
        run.result.docs_metadata_updated < u64::MAX,
        run.result.unsupported_format_count < u64::MAX,
        run.result.error_count < u64::MAX,
    ensures
        ({
            let before = run.result;
            let after = run.finished(uri, outcome).result;
            &&& after.docs_skipped == before.docs_skipped + (if outcome is Skipped {
                1int
            } else {
                0
            })
            &&& after.docs_indexed == before.docs_indexed + (if outcome is Indexed {
                1int
            } else {
                0
            })
            &&& after.docs_metadata_updated == before.docs_metadata_updated + (if outcome
                is MetadataUpdated {
                1int
            } else {
                0
            })
            &&& after.unsupported_format_count == before.unsupported_format_count + (if outcome
                is Unsupported {
                1int
            } else {
                0
            })
            &&& after.error_count == before.error_count + (if outcome is Error {
                1int
            } else {
                0
            })
            &&& after.docs_seen == before.docs_seen
            &&& after.docs_deleted == before.docs_deleted
            &&& after.docs_prunable == before.docs_prunable
            &&& outcome matches DocOutcome::Indexed { chunks } ==> (before.chunks_written + chunks
                <= u64::MAX ==> after.chunks_written == before.chunks_written + chunks)
            &&& !(outcome is Indexed) ==> after.chunks_written == before.chunks_written
        }),
        run.finished(uri, outcome).events == run.events.push(
            source::EventView::DocumentFinished { uri, outcome },
        ),
        run.finished(uri, outcome).index == run.index,
        run.finished(uri, outcome).seen == run.seen,
{
}

/// What indexing came to is what is reported and counted: chunks that were written, nothing
/// to write, or a failure.
pub proof fn indexing_is_reported_as_it_came_out(
    run: RunView,
    res: resource::ResourceView,
    chunks: usize,
    hash: Seq<char>,
    e: ErrorView,
)
    ensures
        run.indexed(res, Ok(Some((chunks, hash)))).events == run.events.push(
            source::EventView::DocumentFinished {
                uri: res.uri,
                outcome: DocOutcome::Indexed { chunks },
            },
        ),
        run.indexed(res, Ok(None)).events == run.events.push(
            source::EventView::DocumentFinished { uri: res.uri, outcome: DocOutcome::Skipped },
        ),
        run.indexed(res, Err(e)).events == run.events.push(
            source::EventView::DocumentFinished { uri: res.uri, outcome: DocOutcome::Error },
        ),
{
}

/// Metadata that was stored is in the index; where it was not, the document is an error and
/// the index stays as it is.
pub proof fn metadata_writes_are_reported_as_they_came_out(run: RunView, w: WriteView)
    ensures
        run.metadata_written(w, true).index.contains_key(w.updated.uri),
        run.metadata_written(w, true).index[w.updated.uri] == w.updated,
        run.metadata_written(w, true).events == run.events.push(
            source::EventView::DocumentFinished {
                uri: w.updated.uri,
                outcome: DocOutcome::MetadataUpdated,
            },
        ),
        run.metadata_written(w, false).index == run.index,
        run.metadata_written(w, false).events == run.events.push(
            source::EventView::DocumentFinished {
                uri: w.updated.uri,
                outcome: DocOutcome::Error,
            },
        ),
{
}

/// A skipped document is seen, and counted by the reason: an error as an error, an unsupported
/// format as such, refreshed metadata as such, and everything else as a skip. Errors are
/// counted a second time, as errors of the ingestor.
pub proof fn skips_are_counted_by_their_reason(run: RunView, uri: Seq<char>, reason: SkipReason)
    ensures
        run.skipped(uri, reason).seen.contains(uri),
        run.skipped(uri, reason).index == run.index,
        run.skipped(uri, reason).events.last() == (source::EventView::DocumentFinished {
            uri,
            outcome: match reason {
                SkipReason::Error(_) => DocOutcome::Error,
                SkipReason::Unsupported => DocOutcome::Unsupported,
                SkipReason::MetadataUpdated => DocOutcome::MetadataUpdated,
                SkipReason::Unchanged => DocOutcome::Skipped,
                SkipReason::Other(_) => DocOutcome::Skipped,
            },
        }),
        run.skip_errors < usize::MAX ==> run.skipped(uri, reason).skip_errors == run.skip_errors
            + (if reason is Error {
            1int
        } else {
            0
        }),
{
}

// ---------------------------------------------------------------------------
// Validators and refreshed metadata
// ---------------------------------------------------------------------------
/// A document is fetched with the validators that are known of it, and with none where it is
/// unknown or was indexed under another policy: it is fetched in full then.
pub proof fn fetches_are_conditional_under_the_same_policy(run: RunView, uri: Seq<char>)
    ensures
        run.index.contains_key(uri) && run.index[uri].policy_version == run.policy_version ==> {
            &&& run.fetch_metadata(uri).etag == run.index[uri].external_etag
            &&& run.fetch_metadata(uri).last_modified == run.index[uri].external_last_modified
        },
        !run.index.contains_key(uri) || run.index[uri].policy_version != run.policy_version ==> {
            &&& run.fetch_metadata(uri).etag is None
            &&& run.fetch_metadata(uri).last_modified is None
        },
{
}

/// Of new validators those that came take the place of the known ones, and those that did not
/// come stay. Nothing is to be done exactly where that changes nothing, or for an unknown
/// document.
pub proof fn new_validators_take_the_place_of_old_ones(
    run: RunView,
    uri: Seq<char>,
    meta: records::ValidatorsView,
)
    ensures
        ({
            let known = run.index[uri];
            let etag_changes = meta.etag is Some && meta.etag != known.external_etag;
            let stamp_changes = meta.last_modified is Some && meta.last_modified
                != known.external_last_modified;
            &&& run.new_validators(uri, meta) is Some <==> run.index.contains_key(uri) && (
            etag_changes || stamp_changes)
            &&& run.new_validators(uri, meta) matches Some(v) ==> {
                &&& meta.etag is Some ==> v.etag == meta.etag
                &&& meta.etag is None ==> v.etag == known.external_etag
                &&& meta.last_modified is Some ==> v.last_modified == meta.last_modified
                &&& meta.last_modified is None ==> v.last_modified == known.external_last_modified
            }
        }),
{
}

/// Refreshing validators touches nothing else: neither the metadata nor the dates of the
/// persisted state, nor the content, policy or owner of the document. The hash follows the
/// new state.
pub proof fn refreshing_validators_keeps_the_rest(
    existing: records::DocView,
    persisted: records::ResourceRecordView,
    etag: Option<Seq<char>>,
    last_modified: Option<Seq<char>>,
)
    ensures
        pipeline::validators_step(existing, etag, last_modified, Ok(Some(persisted))) matches
            pipeline::MetadataStepView::Write(w) && {
            &&& w.resource_id == existing.resource_id
            &&& w.record.external_etag == etag
            &&& w.record.external_last_modified == last_modified
            &&& w.record.metadata == persisted.metadata
            &&& w.record.external_id == persisted.external_id
            &&& w.record.modified_at == persisted.modified_at
            &&& w.record.date_original == persisted.date_original
            &&& w.record.date_parsed == persisted.date_parsed
            &&& w.updated.external_etag == etag
            &&& w.updated.external_last_modified == last_modified
            &&& w.updated.uri == existing.uri
            &&& w.updated.resource_id == existing.resource_id
            &&& w.updated.source_id == existing.source_id
            &&& w.updated.content_hash == existing.content_hash
            &&& w.updated.policy_version == existing.policy_version
            &&& w.updated.metadata_hash == ids::content_hash_of(
                ids::metadata_hash_input(
                    persisted.metadata.json,
                    persisted.external_id,
                    etag,
                    persisted.modified_at,
                ),
            )
        },
        pipeline::validators_step(existing, etag, last_modified, Ok(None))
            == pipeline::MetadataStepView::Done(WriteOutcomeView::Unchanged),
{
}

/// Refreshed metadata is written exactly if it changes the hash of the persisted state. It is
/// written as it is, with its date in both forms; the validators and the content stay.
pub proof fn refreshed_metadata_is_written_where_it_changes_something(
    existing: records::DocView,
    metadata: records::MetadataView,
    external_id: Option<Seq<char>>,
    modified_at: Option<Seq<char>>,
)
    ensures
        ({
            let hash = ids::content_hash_of(
                ids::metadata_hash_input(
                    metadata.json,
                    external_id,
                    existing.external_etag,
                    modified_at,
                ),
            );
            let step = pipeline::enrichment_step(
                existing,
                external_id,
                modified_at,
                Ok(Some(metadata)),
            );
            &&& hash == existing.metadata_hash ==> step == pipeline::MetadataStepView::Done(
                WriteOutcomeView::Unchanged,
            )
            &&& hash != existing.metadata_hash ==> (step matches
                pipeline::MetadataStepView::Write(w) && {
                &&& w.resource_id == existing.resource_id
                &&& w.record.metadata == metadata
                &&& w.record.external_id == external_id
                &&& w.record.modified_at == modified_at
                &&& w.record.external_etag == existing.external_etag
                &&& w.record.external_last_modified == existing.external_last_modified
                &&& w.record.date_original == metadata.date
                &&& metadata.date matches Some(d) ==> w.record.date_parsed
                    == dates::partial_iso8601(d)
                &&& metadata.date is None ==> w.record.date_parsed is None
                &&& w.updated.metadata_hash == hash
                &&& w.updated.uri == existing.uri
                &&& w.updated.resource_id == existing.resource_id
                &&& w.updated.source_id == existing.source_id
                &&& w.updated.content_hash == existing.content_hash
                &&& w.updated.policy_version == existing.policy_version
                &&& w.updated.external_etag == existing.external_etag
                &&& w.updated.external_last_modified == existing.external_last_modified
            })
        }),
        pipeline::enrichment_step(existing, external_id, modified_at, Ok(None))
            == pipeline::MetadataStepView::Done(WriteOutcomeView::Unchanged),
{
}

// ---------------------------------------------------------------------------
// Sources
// ---------------------------------------------------------------------------
/// A run begins with an empty count, nothing seen or gone, the index as it was, and a report
/// that names the source and its directory or URL.
pub proof fn runs_begin_with_nothing_counted(
    s: source::SourceView,
    store_id: Seq<char>,
    policy_version: Seq<char>,
    chunker: config::ConfigView,
    index: Map<Seq<char>, records::DocView>,
)
    ensures
        ({
            let run = RunView::begun(s, store_id, policy_version, chunker, index);
            &&& run.index == index
            &&& run.store_id == store_id
            &&& run.policy_version == policy_version
            &&& run.source == s
            &&& forall|u: Seq<char>| !#[trigger] run.seen.contains(u)
            &&& forall|u: Seq<char>| !#[trigger] run.gone.contains(u)
            &&& run.result.docs_seen == 0 && run.result.docs_indexed == 0
            &&& run.result.docs_skipped == 0 && run.result.docs_deleted == 0
            &&& run.result.error_count == 0 && run.result.docs_prunable == 0
            &&& run.result.chunks_written == 0 && run.result.unsupported_format_count == 0
            &&& run.events.len() == 1
            &&& run.events[0] matches source::EventView::SourceStarted { source_id, location }
                && source_id == s.id && (match s.spec {
                source::SpecView::Path { root } => location == root,
                source::SpecView::Url { url } => location == url,
                source::SpecView::Feed { url, .. } => location == url,
            })
        }),
{
}

/// Only a feed has a digest of its local inputs. It is that of the policy, of whether entries
/// are fetched in full, and of how many are taken; neither the URL nor the interval counts.
pub proof fn feed_digests_cover_the_local_inputs(spec: source::SpecView, policy_version: Seq<char>)
    ensures
        match spec {
            source::SpecView::Feed { max_entries, fetch_full_content, .. } =>
                source::inputs_digest(spec, policy_version) == Some(
                ids::content_hash_of(
                    ids::feed_inputs_text(policy_version, fetch_full_content, max_entries),
                ),
            ),
            _ => source::inputs_digest(spec, policy_version) is None,
        },
{
}

// ---------------------------------------------------------------------------
// Files
// ---------------------------------------------------------------------------
/// What is excluded is left alone, whatever it is; directories that are not are entered, and
/// files are taken exactly if they are included or nothing in particular is. Anything else is
/// never taken.
pub proof fn exclusion_goes_before_inclusion(
    excluded: bool,
    kind: EntryKind,
    everything: bool,
    included: bool,
)
    ensures
        ({
            let action = globs::action_for(excluded, kind, everything, included);
            &&& excluded ==> action == EntryAction::Skip
            &&& action == EntryAction::Descend <==> !excluded && kind == EntryKind::Directory
            &&& action == EntryAction::Take <==> !excluded && kind == EntryKind::File && (
            everything || included)
        }),
{
}

/// A path is matched by patterns exactly if one of them matches it, whichever it is.
pub proof fn any_pattern_can_match(patterns: Seq<Seq<char>>, path: Seq<char>, p: Seq<char>)
    ensures
        patterns.contains(p) && globs::glob_matches(p, path) ==> globs::any_matches(patterns, path),
        (forall|q: Seq<char>| #[trigger]
            patterns.contains(q) ==> !globs::glob_matches(q, path)) ==> !globs::any_matches(
            patterns,
            path,
        ),
{
    if patterns.contains(p) && globs::glob_matches(p, path) {
        let i = choose|i: int| 0 <= i < patterns.len() && patterns[i] == p;
        assert(globs::glob_matches(patterns[i], path));
    }
    if globs::any_matches(patterns, path) {
        let i = choose|i: int|
            0 <= i < patterns.len() && #[trigger] globs::glob_matches(patterns[i], path);
        assert(patterns.contains(patterns[i]));
    }
}

proof fn lemma_glob_failure(patterns: Seq<Seq<char>>, i: int)
    requires
        0 <= i <= patterns.len(),
    ensures
        globs::glob_failure(patterns, i) is None <==> globs::glob_set_error(patterns) is None && (
        forall|j: int|
            i <= j < patterns.len() ==> globs::glob_error(#[trigger] patterns[j]) is None),
    decreases patterns.len() - i,
{
    if i < patterns.len() {
        lemma_glob_failure(patterns, i + 1);
    }
}

/// Patterns are accepted exactly if each of them is valid and they can be put together.
pub proof fn every_pattern_is_checked(patterns: Seq<Seq<char>>)
    ensures
        globs::glob_failure(patterns, 0) is None <==> globs::glob_set_error(patterns) is None && (
        forall|j: int|
            0 <= j < patterns.len() ==> globs::glob_error(#[trigger] patterns[j]) is None),
        globs::glob_failure(patterns, 0) matches Some(e) ==> e is InvalidConfig,
{
    lemma_glob_failure(patterns, 0);
    lemma_glob_error(patterns, 0);
}

proof fn lemma_glob_error(patterns: Seq<Seq<char>>, i: int)
    ensures
        globs::glob_failure(patterns, i) matches Some(e) ==> e is InvalidConfig,
    decreases patterns.len() - i,
{
    if 0 <= i < patterns.len() {
        lemma_glob_error(patterns, i + 1);
    }
}

// ---------------------------------------------------------------------------
// Feed entries
// ---------------------------------------------------------------------------
/// An entry that was checked less than a day ago, or less than the feed's own interval, is not
/// asked for; and one that was checked longer ago is.
pub proof fn entries_are_left_alone_for_the_interval(now: i64, refresh: Option<u64>, checked: i64)
    requires
        liveness::EARLIEST_SECS < now - 86400,
        refresh matches Some(s) ==> liveness::EARLIEST_SECS < now - s,
    ensures
        checked < liveness::cutoff_secs(now, refresh) <==> {
            &&& now - checked > 86400
            &&& refresh matches Some(s) ==> now - checked > s
        },
{
}

/// Where the interval goes further back than can be written, every entry that can be is recent.
pub proof fn cutoffs_can_be_written(now: i64, refresh: Option<u64>)
    ensures
        liveness::cutoff_secs(now, refresh) >= liveness::EARLIEST_SECS,
        liveness::EARLIEST_SECS < now - 86400 && (refresh matches Some(s)
            ==> liveness::EARLIEST_SECS < now - s) || liveness::cutoff_secs(now, refresh)
            == liveness::EARLIEST_SECS,
{
}

/// Only the server's word that an entry is gone deletes it, and then the entry's own resource.
/// Otherwise it is noted as checked, with the validators of an answer that nothing has
/// changed, as far as they came, or else with those that it had.
pub proof fn entries_are_deleted_or_noted(
    c: records::StaleView,
    fetched: Result<FetchResult, Error>,
)
    ensures
        match liveness::probe_action(c, fetched) {
            liveness::ActionView::Delete { resource_id } => {
                &&& fetched matches Ok(FetchResult::Gone)
                &&& resource_id == c.resource_id
            },
            liveness::ActionView::Touch { resource_id, validators } => {
                &&& !(fetched matches Ok(FetchResult::Gone))
                &&& resource_id == c.resource_id
                &&& match fetched {
                    Ok(FetchResult::NotModified { etag, last_modified }) => {
                        &&& etag matches Some(t) ==> validators.etag == Some(t@)
                        &&& etag is None ==> validators.etag == c.external_etag
                        &&& last_modified matches Some(t) ==> validators.last_modified == Some(t@)
                        &&& last_modified is None ==> validators.last_modified
                            == c.external_last_modified
                    },
                    _ => {
                        &&& validators.etag == c.external_etag
                        &&& validators.last_modified == c.external_last_modified
                    },
                }
            },
        },
{
}

// ---------------------------------------------------------------------------
// Jobs
// ---------------------------------------------------------------------------
/// A job waits, runs, and ends as done or failed; its numbers are those it was completed with,
/// and its error is kept.
pub proof fn jobs_go_through_their_states(
    id: Seq<char>,
    store_id: Seq<char>,
    scope: jobs::IndexJobScope,
    job: jobs::JobView,
    stats: jobs::IndexJobStats,
    error: Seq<char>,
    code: Option<Seq<char>>,
    now: Seq<char>,
)
    ensures
        ({
            let p = jobs::JobView::pending(id, store_id, scope, now);
            &&& p.state == jobs::IndexJobState::Pending
            &&& p.id == id && p.store_id == store_id && p.scope == scope && p.created_at == now
            &&& p.started_at is None && p.completed_at is None && p.error is None
            &&& p.error_code is None
            &&& p.stats.docs_seen == 0 && p.stats.docs_indexed == 0 && p.stats.docs_skipped == 0
            &&& p.stats.docs_deleted == 0 && p.stats.chunks_written == 0
        }),
        job.started(now).state == jobs::IndexJobState::Running,
        job.started(now).started_at == Some(now),
        job.started(now).completed_at == job.completed_at,
        job.completed(stats, now).state == jobs::IndexJobState::Done,
        job.completed(stats, now).stats == stats,
        job.completed(stats, now).error == job.error,
        job.failed(error, code, now).state == jobs::IndexJobState::Failed,
        job.failed(error, code, now).error == Some(error),
        job.failed(error, code, now).error_code == code,
        job.failed(error, code, now).stats == job.stats,
{
}

} // verus!
