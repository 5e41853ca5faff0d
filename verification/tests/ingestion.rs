//! A run over a source: documents, metadata, removals and liveness.

use localdb_core::block::{Block, BlockKind, BlockLocation};
use localdb_core::chunker::{CharSizer, ChunkerConfig, TokenSizer};
use localdb_core::ids::{compute_feed_inputs_digest, compute_metadata_hash};
use localdb_core::ingestion::file_order::sort_by_path;
use localdb_core::ingestion::globs::{
    build_glob_set, glob_match, EntryAction, EntryKind, PathFilters,
};
use localdb_core::ingestion::jobs::{IndexJobScope, IndexJobState, IndexJobStats};
use localdb_core::ingestion::liveness::{checked_before, cutoff, query_limit, ProbeAction};
use localdb_core::ingestion::pipeline::{
    fold_metadata, fold_validators, MetadataStep, MetadataWriteOutcome, ResourceStep,
    REFRESHED_VALIDATORS,
};
use localdb_core::ingestion::records::{Metadata, ResourceRecord, StaleFeedResource};
use localdb_core::ingestion::resource::{
    backfilled_title, check_embeddings, chunk_resource, effective_chunker_config,
    finish_resource, prepare_resource, scale_to_chars, Resource,
};
use localdb_core::ingestion::run::{RunAction, SourceRun};
use localdb_core::ingestion::source::{
    feed_inputs_digest, usable_validators, DocOutcome, ProgressEvent, SkipReason, Source,
    SourceSpec,
};
use localdb_core::ingestion::sweep::{Enumeration, SweepPlan, SweepSuppression};
use localdb_core::ingestion::{
    complete_index_job, create_index_job, fail_index_job, fail_index_job_with_error,
    is_store_stale, start_index_job, DeletionPolicy, DocumentIndex, DocumentRecord,
    FetchMetadata, FetchResult, FoundFile, IndexOutcome, IngestionConfig, PathEnumeration,
    PipelineCallback,
};
use localdb_core::os_path::OsPath;
use localdb_core::urls::filename_hint_from_uri;
use localdb_core::Error;

fn record(uri: &str, source_id: &str) -> DocumentRecord {
    DocumentRecord {
        uri: uri.to_string(),
        resource_id: format!("res-{uri}"),
        source_id: source_id.to_string(),
        content_hash: "hash".to_string(),
        policy_version: "p1".to_string(),
        metadata_hash: "meta".to_string(),
        external_etag: None,
        external_last_modified: None,
    }
}

fn path_source() -> Source {
    Source {
        id: "src".to_string(),
        store_id: "store".to_string(),
        source_preset: "prose".to_string(),
        spec: SourceSpec::Path {
            root: "/docs".to_string(),
            included: vec![],
            excluded: vec![],
        },
    }
}

fn feed_source(refresh_interval_secs: Option<u64>) -> Source {
    Source {
        id: "src".to_string(),
        store_id: "store".to_string(),
        source_preset: "prose".to_string(),
        spec: SourceSpec::Feed {
            url: "https://example.com/feed".to_string(),
            max_entries: Some(10),
            fetch_full_content: true,
            refresh_interval_secs,
        },
    }
}

fn config() -> IngestionConfig {
    IngestionConfig {
        store_id: "store".to_string(),
        policy_version: "p1".to_string(),
        chunker: ChunkerConfig::prose(),
    }
}

fn resource(uri: &str) -> Resource {
    Resource {
        id: format!("new-{uri}"),
        source_id: "src".to_string(),
        uri: uri.to_string(),
        mime: None,
        content_hash: "hash".to_string(),
        blocks: vec![Block {
            seq: 0,
            kind: BlockKind::Text,
            text: "Some text.".to_string(),
            location: Some(BlockLocation { page: Some(7) }),
        }],
        metadata: Metadata {
            json: "{\"title\":\"T\"}".to_string(),
            title: Some("T".to_string()),
            date: Some("2026-06-15T10:30:00Z".to_string()),
        },
        external_id: None,
        external_etag: Some("e1".to_string()),
        external_last_modified: Some("lm1".to_string()),
        modified_at: None,
        added_at: "2026-06-10T12:00:00Z".to_string(),
        ingestor_kind: "path".to_string(),
    }
}

fn run_of(source: Source, records: Vec<DocumentRecord>) -> PipelineCallback {
    PipelineCallback::new(source, config(), DocumentIndex::from_records(records))
}

// ---------------------------------------------------------------------------
// The index of documents
// ---------------------------------------------------------------------------

#[test]
fn the_index_holds_one_document_for_each_uri() {
    let mut index = DocumentIndex::from_records(vec![record("a", "s1"), record("a", "s2")]);
    assert_eq!(index.len(), 1);
    assert_eq!(index.get("a").unwrap().source_id, "s2");
    index.upsert(record("b", "s1"));
    assert_eq!(index.len(), 2);
    let mut uris = index.uris();
    uris.sort();
    assert_eq!(uris, vec!["a", "b"]);
    assert_eq!(index.remove("a").unwrap().source_id, "s2");
    assert!(index.remove("a").is_none());
    assert!(index.get("a").is_none());
    assert!(!index.is_empty());
    index.remove("b");
    assert!(index.is_empty());
    assert!(DocumentIndex::default().is_empty());
}

// ---------------------------------------------------------------------------
// Resources
// ---------------------------------------------------------------------------

#[test]
fn new_resources_are_indexed_and_left_alone_the_next_time() {
    let mut run = run_of(path_source(), vec![]);
    let res = resource("file:///docs/a.md");
    match run.on_resource(&res) {
        ResourceStep::Index { replaces } => assert!(replaces.is_none()),
        _ => panic!("a new resource is indexed"),
    }
    let hash = compute_metadata_hash("{\"title\":\"T\"}", None, Some("e1"), None);
    run.indexed(&res, Ok(IndexOutcome::Written(3, hash.clone())));
    assert_eq!(run.result.docs_seen, 1);
    assert_eq!(run.result.docs_indexed, 1);
    assert_eq!(run.result.chunks_written, 3);
    let known = run.doc_index.get("file:///docs/a.md").unwrap();
    assert_eq!(known.metadata_hash, hash);
    assert_eq!(known.policy_version, "p1");
    assert_eq!(known.resource_id, "new-file:///docs/a.md");

    assert!(matches!(run.on_resource(&res), ResourceStep::Unchanged));
    assert_eq!(run.result.docs_seen, 2);
    assert_eq!(run.result.docs_skipped, 1);
    assert!(run.seen.contains("file:///docs/a.md"));
}

#[test]
fn changed_content_replaces_the_old_resource() {
    let mut run = run_of(path_source(), vec![record("u", "src")]);
    let mut res = resource("u");
    res.content_hash = "other".to_string();
    match run.on_resource(&res) {
        ResourceStep::Index { replaces } => assert_eq!(replaces.unwrap(), "res-u"),
        _ => panic!("changed content is indexed"),
    }
}

#[test]
fn a_new_policy_indexes_everything_anew() {
    let mut old = record("u", "src");
    old.policy_version = "p0".to_string();
    old.external_etag = Some("e".to_string());
    let mut run = run_of(path_source(), vec![old]);
    assert_eq!(run.lookup_fetch_metadata("u"), FetchMetadata::default());
    assert!(matches!(run.on_resource(&resource("u")), ResourceStep::Index { .. }));
}

#[test]
fn changed_metadata_is_written_without_indexing() {
    let mut run = run_of(path_source(), vec![record("u", "src")]);
    let res = resource("u");
    let write = match run.on_resource(&res) {
        ResourceStep::UpdateMetadata(write) => write,
        _ => panic!("only the metadata changed"),
    };
    assert_eq!(write.resource_id, "res-u");
    assert_eq!(write.record.date_original.as_deref(), Some("2026-06-15T10:30:00Z"));
    assert_eq!(write.record.date_parsed.as_deref(), Some("2026-06-15"));
    run.metadata_written(write, true);
    assert_eq!(run.result.docs_metadata_updated, 1);
    let known = run.doc_index.get("u").unwrap();
    assert_eq!(known.resource_id, "res-u");
    assert_eq!(known.external_etag.as_deref(), Some("e1"));
    assert!(matches!(run.on_resource(&res), ResourceStep::Unchanged));
}

#[test]
fn failures_leave_the_index_in_place() {
    let mut run = run_of(path_source(), vec![record("u", "src")]);
    let mut res = resource("u");
    if let ResourceStep::UpdateMetadata(write) = run.on_resource(&res) {
        run.metadata_written(write, false);
    }
    assert_eq!(run.result.error_count, 1);
    assert_eq!(run.doc_index.get("u").unwrap().metadata_hash, "meta");
    res.content_hash = "other".to_string();
    run.on_resource(&res);
    run.indexed(&res, Ok(IndexOutcome::Empty));
    assert_eq!(run.result.docs_skipped, 1);
    run.on_resource(&res);
    run.indexed(&res, Err(Error::IndexInProgress));
    assert_eq!(run.result.error_count, 2);
    assert_eq!(run.doc_index.get("u").unwrap().content_hash, "hash");
    assert_eq!(run.result.docs_seen, 3);
}

#[test]
fn skips_are_counted_by_their_reason() {
    let mut run = run_of(path_source(), vec![]);
    run.take_events();
    run.on_discovered(5);
    run.on_skipped("a", &SkipReason::Unchanged);
    run.on_skipped("b", &SkipReason::Unsupported);
    run.on_skipped("c", &SkipReason::Other("later".to_string()));
    run.on_skipped("d", &SkipReason::MetadataUpdated);
    run.on_skipped("e", &SkipReason::Error("broken".to_string()));
    assert_eq!(run.result.docs_seen, 5);
    assert_eq!(run.result.docs_skipped, 2);
    assert_eq!(run.result.unsupported_format_count, 1);
    assert_eq!(run.result.docs_metadata_updated, 1);
    assert_eq!(run.result.error_count, 1);
    assert_eq!(run.skip_error_count, 1);
    let events = run.take_events();
    assert_eq!(events.len(), 11);
    assert_eq!(events[0], ProgressEvent::Discovered { total: 5 });
    assert_eq!(
        events[9],
        ProgressEvent::DocumentStarted { uri: "e".to_string(), index: 4, total: 5 }
    );
    assert_eq!(
        events[10],
        ProgressEvent::DocumentFinished { uri: "e".to_string(), outcome: DocOutcome::Error }
    );
    assert!(run.take_events().is_empty());
}

#[test]
fn new_validators_are_folded_in_and_used() {
    let mut known = record("u", "src");
    known.external_etag = Some("old".to_string());
    known.external_last_modified = Some("then".to_string());
    let mut run = run_of(path_source(), vec![known]);
    let none = FetchMetadata::default();
    assert!(run.on_validators_refreshed("u", &none).is_none());
    assert!(run.on_validators_refreshed("other", &none).is_none());
    let fresh = FetchMetadata { etag: Some("new".to_string()), last_modified: None };
    let plan = run.on_validators_refreshed("u", &fresh).unwrap();
    assert_eq!(plan.etag.as_deref(), Some("new"));
    assert_eq!(plan.last_modified.as_deref(), Some("then"));
    let persisted = ResourceRecord {
        metadata: Metadata { json: "{}".to_string(), title: None, date: None },
        external_id: Some("x".to_string()),
        external_etag: Some("old".to_string()),
        external_last_modified: Some("then".to_string()),
        modified_at: None,
        date_original: None,
        date_parsed: None,
    };
    let write = match fold_validators(plan, Ok(Some(persisted))) {
        MetadataStep::Write(write) => write,
        MetadataStep::Done(_) => panic!("new validators are written"),
    };
    assert_eq!(
        write.updated.metadata_hash,
        compute_metadata_hash("{}", Some("x"), Some("new"), None)
    );
    let outcome = run.persist_metadata_write(write, REFRESHED_VALIDATORS, Ok(()));
    assert_eq!(outcome, MetadataWriteOutcome::Written);
    let used = run.lookup_fetch_metadata("u");
    assert_eq!(used.etag.as_deref(), Some("new"));
    assert_eq!(used.last_modified.as_deref(), Some("then"));
    assert_eq!(run.result.docs_metadata_updated, 0);
}

#[test]
fn failures_to_refresh_say_what_failed() {
    let run = run_of(path_source(), vec![record("u", "src")]);
    let fresh = FetchMetadata { etag: Some("new".to_string()), last_modified: None };
    let plan = run.on_validators_refreshed("u", &fresh).unwrap();
    match fold_validators(plan, Err(Error::IndexInProgress)) {
        MetadataStep::Done(MetadataWriteOutcome::Failed(m)) => assert_eq!(
            m,
            format!(
                "error reading resource 'u' to refresh conditional-GET validators: {}",
                Error::IndexInProgress.to_string()
            )
        ),
        _ => panic!("a failed read is reported"),
    }
    let known = run.on_metadata_refreshed("u").unwrap();
    match fold_metadata(known, None, None, Err(Error::IndexInProgress)) {
        MetadataStep::Done(MetadataWriteOutcome::Failed(m)) => assert_eq!(
            m,
            format!(
                "error reading resource 'u' to refresh source-supplied metadata: {}",
                Error::IndexInProgress.to_string()
            )
        ),
        _ => panic!("a failed read is reported"),
    }
    let mut run = run;
    let known = run.on_metadata_refreshed("u").unwrap();
    let metadata =
        Metadata { json: "{}".to_string(), title: None, date: Some("2020".to_string()) };
    let write = match fold_metadata(known, Some("id"), None, Ok(Some(metadata))) {
        MetadataStep::Write(write) => write,
        MetadataStep::Done(_) => panic!("the hash changed"),
    };
    assert_eq!(write.record.date_parsed.as_deref(), Some("2020"));
    let outcome =
        run.persist_metadata_write(write, REFRESHED_VALIDATORS, Err(Error::ConfigReadonly));
    assert_eq!(
        outcome,
        MetadataWriteOutcome::Failed(format!(
            "error persisting refreshed conditional-GET validators for 'u': {}",
            Error::ConfigReadonly.to_string()
        ))
    );
    assert_eq!(run.doc_index.get("u").unwrap().metadata_hash, "meta");
}

#[test]
fn unchanged_metadata_is_not_written() {
    let mut known = record("u", "src");
    known.metadata_hash = compute_metadata_hash("{}", None, None, None);
    let run = run_of(path_source(), vec![known]);
    let metadata = Metadata { json: "{}".to_string(), title: None, date: None };
    let known = run.on_metadata_refreshed("u").unwrap();
    assert!(matches!(
        fold_metadata(known, None, None, Ok(Some(metadata))),
        MetadataStep::Done(MetadataWriteOutcome::Unchanged)
    ));
    let known = run.on_metadata_refreshed("u").unwrap();
    assert!(matches!(
        fold_metadata(known, None, None, Ok(None)),
        MetadataStep::Done(MetadataWriteOutcome::Unchanged)
    ));
    assert!(run.on_metadata_refreshed("other").is_none());
}

#[test]
fn own_titles_go_before_those_of_the_resource() {
    assert_eq!(backfilled_title(Some("own"), Some("res")).as_deref(), Some("own"));
    assert_eq!(backfilled_title(None, Some("res")).as_deref(), Some("res"));
    assert!(backfilled_title(None, None).is_none());
}

// ---------------------------------------------------------------------------
// Indexing of one resource
// ---------------------------------------------------------------------------

#[test]
fn code_files_get_the_code_preset() {
    let base = ChunkerConfig::prose();
    assert_eq!(effective_chunker_config("prose", &base, Some("a.rs"), None).preset, "code");
    assert_eq!(effective_chunker_config("prose", &base, Some("a.md"), None).preset, "prose");
    let messages = ChunkerConfig::messages();
    assert_eq!(
        effective_chunker_config("messages", &messages, Some("a.rs"), None).preset,
        "messages"
    );
    assert_eq!(filename_hint_from_uri("file:///src/lib.rs").as_deref(), Some("lib.rs"));
    assert!(filename_hint_from_uri("https://example.com/docs/").is_none());
    assert!(filename_hint_from_uri("mailto:someone").is_none());
    assert!(filename_hint_from_uri("no url").is_none());
}

#[test]
fn characters_stand_in_for_tokens() {
    let c = scale_to_chars(&ChunkerConfig::prose());
    assert_eq!(c.target_tokens, Some(1024));
    assert_eq!(c.overlap_tokens, Some(0));
    let code = scale_to_chars(&ChunkerConfig::code());
    assert_eq!(code.target_tokens, Some(3000));

    let mut res = resource("file:///docs/a.md");
    res.blocks[0].text = "word ".repeat(400);
    let none: Option<&CharSizer> = None;
    let by_chars = chunk_resource(&res, "prose", &config(), none).unwrap();
    let counter = TokenSizer::new(|t: &str| t.split_whitespace().count());
    let by_words = chunk_resource(&res, "prose", &config(), Some(&counter)).unwrap();
    assert!(by_chars.len() >= 2 && by_words.len() >= 2);
    assert!(by_chars.iter().any(|c| c.text.chars().count() > 256));
    assert!(by_chars.iter().all(|c| c.text.chars().count() <= 1024));
    assert!(by_words.iter().all(|c| c.text.split_whitespace().count() <= 256));
}

#[test]
fn a_resource_is_prepared_embedded_and_written() {
    let mut res = resource("file:///docs/a.md");
    res.blocks.push(Block {
        seq: 1,
        kind: BlockKind::Text,
        text: "More text.".to_string(),
        location: None,
    });
    let none: Option<&CharSizer> = None;
    let prepared = prepare_resource(&res, "prose", &config(), none).unwrap().unwrap();
    assert_eq!(prepared.input.document_context, "Some text.\n\nMore text.");
    assert_eq!(prepared.input.chunks, vec!["Some text.", "More text."]);
    let done = finish_resource(&res, &config(), &prepared, &[2]).unwrap();
    assert_eq!(done.records.len(), 2);
    assert_eq!(done.records[0].page, Some(7));
    assert_eq!(done.records[1].page, None);
    assert_eq!(done.records[1].provenance.content_hash, "hash");
    assert_eq!(done.records[1].resource.date_parsed.as_deref(), Some("2026-06-15"));
    let hash = compute_metadata_hash("{\"title\":\"T\"}", None, Some("e1"), None);
    assert_eq!(done.outcome, IndexOutcome::Written(2, hash));

    res.blocks.clear();
    assert!(prepare_resource(&res, "prose", &config(), none).unwrap().is_none());
}

#[test]
fn embedders_must_return_a_vector_for_each_chunk() {
    assert!(check_embeddings(&[3], 3).is_ok());
    match check_embeddings(&[], 3) {
        Err(Error::Internal { message, correlation_id }) => {
            assert_eq!(message, "embedder returned 0 EmbeddedDocuments for 1 input document");
            assert_eq!(correlation_id, "embed_count_mismatch");
        }
        other => panic!("{:?}", other),
    }
    match check_embeddings(&[2], 3) {
        Err(Error::Internal { message, correlation_id }) => {
            assert_eq!(message, "embedder returned 2 vectors for 3 chunks");
            assert_eq!(correlation_id, "embed_chunk_count_mismatch");
        }
        other => panic!("{:?}", other),
    }
}

// ---------------------------------------------------------------------------
// Removals
// ---------------------------------------------------------------------------

#[test]
fn retaining_runs_count_and_keep() {
    let mut run =
        run_of(path_source(), vec![record("a", "src"), record("b", "src"), record("c", "src")]);
    run.on_skipped("a", &SkipReason::Unchanged);
    run.on_gone("b");
    run.on_gone("unknown");
    assert!(run.confirmed_gone(DeletionPolicy::Retain).is_empty());
    assert_eq!(run.result.docs_prunable, 1);
    assert!(matches!(
        run.plan_sweep(DeletionPolicy::default(), &Enumeration::Complete),
        SweepPlan::Nothing
    ));
    assert_eq!(run.result.docs_prunable, 2);
    assert_eq!(run.doc_index.len(), 3);
}

#[test]
fn pruning_runs_delete_what_is_gone_and_what_was_not_seen() {
    let mut run = run_of(
        path_source(),
        vec![record("a", "src"), record("b", "src"), record("c", "src"), record("d", "other")],
    );
    run.on_skipped("a", &SkipReason::Unchanged);
    run.on_gone("b");
    run.on_gone("d");
    let (mut machine, action) = SourceRun::begin(
        run,
        DeletionPolicy::Prune,
        Enumeration::Complete,
        None,
        None,
        1_781_092_800,
    );
    match action {
        RunAction::DeleteResource { resource_id } => assert_eq!(resource_id, "res-b"),
        _ => panic!("what is gone is deleted first"),
    }
    match machine.deleted(4) {
        RunAction::DeleteResource { resource_id } => assert_eq!(resource_id, "res-c"),
        _ => panic!("then what was not seen"),
    }
    match machine.deleted(0) {
        RunAction::Finished { result, suppressed } => {
            assert_eq!(result.docs_deleted, 1);
            assert!(suppressed.is_none());
        }
        _ => panic!("then the run is finished"),
    }
    let mut left = machine.run.doc_index.uris();
    left.sort();
    assert_eq!(left, vec!["a", "d"]);
    assert!(matches!(machine.touched(), RunAction::Finished { .. }));
}

#[test]
fn suppressed_runs_still_delete_what_is_gone() {
    let mut run = run_of(
        path_source(),
        vec![record("a", "src"), record("b", "src"), record("c", "src")],
    );
    run.on_skipped("a", &SkipReason::Unchanged);
    run.on_gone("b");
    let (mut machine, action) = SourceRun::begin(
        run,
        DeletionPolicy::Prune,
        Enumeration::Incomplete { reason: "no access".to_string() },
        None,
        None,
        1_781_092_800,
    );
    match action {
        RunAction::DeleteResource { resource_id } => assert_eq!(resource_id, "res-b"),
        _ => panic!("what is gone is deleted"),
    }
    match machine.deleted(1) {
        RunAction::Finished { suppressed, .. } => {
            assert_eq!(suppressed.unwrap().reason(), "no access");
        }
        _ => panic!("what was not seen is kept"),
    }
    let mut left = machine.run.doc_index.uris();
    left.sort();
    assert_eq!(left, vec!["a", "c"]);
}

#[test]
fn retaining_runs_count_what_pruning_runs_remove() {
    let finish = |deletion: DeletionPolicy| {
        let mut run = run_of(
            path_source(),
            vec![record("a", "src"), record("b", "src"), record("c", "src"), record("d", "src")],
        );
        run.on_skipped("a", &SkipReason::Unchanged);
        run.on_gone("b");
        let (mut machine, mut action) =
            SourceRun::begin(run, deletion, Enumeration::Complete, None, None, 1_781_092_800);
        let mut asked = 0;
        while matches!(action, RunAction::DeleteResource { .. }) {
            asked += 1;
            action = machine.deleted(1);
        }
        match action {
            RunAction::Finished { result, .. } => {
                (asked, result.docs_deleted, result.docs_prunable, machine.run.doc_index.len())
            }
            _ => panic!("nothing else is asked for"),
        }
    };
    assert_eq!(finish(DeletionPolicy::Prune), (3, 3, 0, 1));
    assert_eq!(finish(DeletionPolicy::Retain), (0, 0, 3, 4));
}

#[test]
fn runs_without_evidence_delete_nothing() {
    let mut run = run_of(path_source(), vec![record("a", "src")]);
    match run.plan_sweep(DeletionPolicy::Prune, &Enumeration::Complete) {
        SweepPlan::Suppressed(s) => {
            assert_eq!(s, SweepSuppression::ZeroSeen);
            assert_eq!(
                s.reason(),
                "this run observed none of the documents this source owns"
            );
        }
        _ => panic!("nothing was seen"),
    }
    run.on_skipped("b", &SkipReason::Unchanged);
    let incomplete = Enumeration::Incomplete { reason: "no access".to_string() };
    match run.plan_sweep(DeletionPolicy::Prune, &incomplete) {
        SweepPlan::Suppressed(s) => assert_eq!(s.reason(), "no access"),
        _ => panic!("the run did not look everywhere"),
    }
    let mut empty = run_of(path_source(), vec![]);
    assert!(matches!(
        empty.plan_sweep(DeletionPolicy::Prune, &Enumeration::Complete),
        SweepPlan::Delete(uris) if uris.is_empty()
    ));
}

#[test]
fn feeds_are_probed_and_not_swept() {
    let mut run = run_of(feed_source(None), vec![record("a", "src"), record("b", "src")]);
    run.on_skipped("a", &SkipReason::Unchanged);
    let digest = feed_inputs_digest(&run.source, "p1");
    assert_eq!(digest, Some(compute_feed_inputs_digest("p1", true, Some(10))));
    let (mut machine, action) = SourceRun::begin(
        run,
        DeletionPolicy::Prune,
        Enumeration::Complete,
        Some(FetchMetadata { etag: Some("feed".to_string()), last_modified: None }),
        digest.clone(),
        1_781_092_800,
    );
    match action {
        RunAction::ListStale { checked_before, limit } => {
            assert_eq!(checked_before.as_deref(), Some("2026-06-09T12:00:00Z"));
            assert_eq!(limit, 26);
        }
        _ => panic!("entries are looked up"),
    }
    let stale = |uri: &str| StaleFeedResource {
        uri: uri.to_string(),
        resource_id: format!("res-{uri}"),
        external_etag: Some("e".to_string()),
        external_last_modified: Some("lm".to_string()),
    };
    match machine.stale(&vec![stale("a"), stale("b"), stale("c")]) {
        RunAction::Fetch { uri, validators } => {
            assert_eq!(uri, "b");
            assert_eq!(validators.etag.as_deref(), Some("e"));
        }
        _ => panic!("an entry that was not seen is asked for"),
    }
    match machine.fetched(Ok(FetchResult::Gone)) {
        RunAction::DeleteResource { resource_id } => assert_eq!(resource_id, "res-b"),
        _ => panic!("what is gone is deleted"),
    }
    assert!(machine.run.doc_index.get("b").is_none());
    assert!(matches!(machine.deleted(1), RunAction::Fetch { .. }));
    let answer = FetchResult::NotModified { etag: Some("e2".to_string()), last_modified: None };
    match machine.fetched(Ok(answer)) {
        RunAction::Touch { resource_id, etag, last_modified } => {
            assert_eq!(resource_id, "res-c");
            assert_eq!(etag.as_deref(), Some("e2"));
            assert_eq!(last_modified.as_deref(), Some("lm"));
        }
        _ => panic!("what is there is noted as checked"),
    }
    match machine.touched() {
        RunAction::Finished { result, .. } => {
            assert_eq!(result.feed_entries_liveness_checked, 2);
            assert_eq!(result.docs_deleted, 1);
            assert_eq!(result.document_inputs_digest, digest);
            assert_eq!(result.document_validators.unwrap().etag.as_deref(), Some("feed"));
        }
        _ => panic!("the run is finished"),
    }
    let events = machine.run.take_events();
    assert!(matches!(events.last(), Some(ProgressEvent::SourceFinished { .. })));
}

#[test]
fn only_the_word_of_the_server_deletes_an_entry() {
    let mut run = run_of(feed_source(None), vec![record("a", "src")]);
    let c = StaleFeedResource {
        uri: "a".to_string(),
        resource_id: "res-a".to_string(),
        external_etag: Some("e".to_string()),
        external_last_modified: None,
    };
    let kept = ProbeAction::Touch {
        resource_id: "res-a".to_string(),
        etag: Some("e".to_string()),
        last_modified: None,
    };
    assert_eq!(run.probe_liveness_candidate(&c, Err(Error::IndexInProgress)), kept);
    assert_eq!(run.probe_liveness_candidate(&c, Ok(FetchResult::Blocked)), kept);
    let downloaded = FetchResult::Downloaded {
        bytes: vec![1],
        content_type: None,
        etag: Some("e2".to_string()),
        last_modified: Some("lm2".to_string()),
        final_url: None,
    };
    assert_eq!(run.probe_liveness_candidate(&c, Ok(downloaded)), kept);
    assert!(run.doc_index.get("a").is_some());
    assert_eq!(
        run.probe_liveness_candidate(&c, Ok(FetchResult::Gone)),
        ProbeAction::Delete { resource_id: "res-a".to_string() }
    );
    assert!(run.doc_index.get("a").is_none());
    assert_eq!(run.result.feed_entries_liveness_checked, 4);
}

#[test]
fn probes_are_few_and_far_between() {
    assert_eq!(query_limit(0), 25);
    assert_eq!(query_limit(475), 500);
    assert_eq!(query_limit(476), 500);
    assert_eq!(query_limit(usize::MAX), 500);
    assert_eq!(cutoff(100_000, None), 13_600);
    assert_eq!(cutoff(100_000, Some(60)), 13_600);
    assert_eq!(cutoff(100_000, Some(100_000)), 0);
    assert_eq!(
        checked_before(0, Some(u64::MAX)).as_deref(),
        Some("-262143-01-01T00:00:00Z")
    );
    let run = run_of(feed_source(None), vec![]);
    let many: Vec<StaleFeedResource> = (0..40)
        .map(|i| StaleFeedResource {
            uri: format!("u{i}"),
            resource_id: format!("r{i}"),
            external_etag: None,
            external_last_modified: None,
        })
        .collect();
    let batch = run.liveness_batch(&many);
    assert_eq!(batch.len(), 25);
    assert_eq!(batch[24].uri, "u24");
}

#[test]
fn feed_validators_belong_to_their_inputs() {
    let stored = FetchMetadata { etag: Some("e".to_string()), last_modified: None };
    let current = Some("d1".to_string());
    assert_eq!(usable_validators(&current, &Some("d1".to_string()), stored.clone()), stored);
    assert_eq!(
        usable_validators(&current, &Some("d0".to_string()), stored.clone()),
        FetchMetadata::default()
    );
    assert_eq!(usable_validators(&current, &None, stored.clone()), FetchMetadata::default());
    assert_eq!(usable_validators(&None, &None, stored.clone()), stored);
    assert!(feed_inputs_digest(&path_source(), "p1").is_none());
}

// ---------------------------------------------------------------------------
// Files
// ---------------------------------------------------------------------------

#[test]
fn globs_do_not_cross_directories() {
    assert!(glob_match("*.md", "a.md"));
    assert!(!glob_match("*.md", "docs/a.md"));
    assert!(glob_match("**/*.md", "docs/deep/a.md"));
    assert!(!glob_match("[", "["));
    match build_glob_set(&["ok".to_string(), "a[".to_string()]) {
        Err(Error::InvalidConfig { message }) => {
            assert!(message.starts_with("invalid glob pattern 'a[': "), "{message}");
        }
        _ => panic!("an open class is invalid"),
    }
}

#[test]
fn excluded_entries_are_left_alone() {
    let filters = PathFilters::new(
        &["**/*.md".to_string()],
        &["node_modules".to_string(), "draft/**".to_string()],
    )
    .unwrap();
    let decide = |path: &str, name: &str, kind: EntryKind| filters.decide(path, Some(name), kind);
    assert_eq!(decide("docs", "docs", EntryKind::Directory), EntryAction::Descend);
    assert_eq!(
        decide("web/node_modules", "node_modules", EntryKind::Directory),
        EntryAction::Skip
    );
    assert_eq!(decide("docs/a.md", "a.md", EntryKind::File), EntryAction::Take);
    assert_eq!(decide("docs/a.txt", "a.txt", EntryKind::File), EntryAction::Skip);
    assert_eq!(decide("draft/a.md", "a.md", EntryKind::File), EntryAction::Skip);
    assert_eq!(decide("docs/a.md", "a.md", EntryKind::Other), EntryAction::Skip);
    let all = PathFilters::new(&[], &[]).unwrap();
    assert_eq!(all.decide("x.bin", None, EntryKind::File), EntryAction::Take);
}

#[test]
fn files_come_in_the_order_of_their_paths() {
    let names = ["/a.b/x", "/a/z", "/a", "/b", "/a/b/c", "/a-b", "/\u{e9}", "/a/b"];
    let files: Vec<FoundFile> = names
        .iter()
        .map(|n| FoundFile { path: OsPath::from_text(n), uri: format!("file://{n}") })
        .collect();
    let sorted = sort_by_path(files);
    let mut expected = names.to_vec();
    expected.sort_by(|a, b| std::path::Path::new(a).cmp(std::path::Path::new(b)));
    let found: Vec<String> =
        sorted.iter().map(|f| String::from_utf8(f.path.bytes.clone()).unwrap()).collect();
    assert_eq!(found, expected);
    assert_eq!(found[1], "/a/b");
    let odd = OsPath { bytes: b"/\xff".to_vec() };
    let mut files = vec![FoundFile { path: odd.clone(), uri: "file:///%FF".to_string() }];
    files.extend(sorted);
    assert_eq!(sort_by_path(files)[8].path, odd);
    assert!(sort_by_path(vec![]).is_empty());
}

#[test]
fn missing_roots_have_no_files() {
    let file = FoundFile { path: OsPath::from_text("/a"), uri: "file:///a".to_string() };
    assert_eq!(PathEnumeration::Complete(vec![file.clone()]).files(), &[file]);
    assert!(PathEnumeration::RootUnavailable.files().is_empty());
}

// ---------------------------------------------------------------------------
// Jobs
// ---------------------------------------------------------------------------

#[test]
fn jobs_go_from_pending_to_done_or_failed() {
    let mut job = create_index_job("store", IndexJobScope::Store);
    assert_eq!(job.id.len(), 26);
    assert_eq!(job.state, IndexJobState::Pending);
    assert_eq!(job.stats, IndexJobStats::default());
    start_index_job(&mut job);
    assert_eq!(job.state, IndexJobState::Running);
    assert!(job.started_at.is_some());
    let stats = IndexJobStats { docs_seen: 2, ..IndexJobStats::default() };
    complete_index_job(&mut job, stats);
    assert_eq!(job.state, IndexJobState::Done);
    assert_eq!(job.stats.docs_seen, 2);
    assert!(job.completed_at.is_some());
    assert!(job.error.is_none());

    let source = IndexJobScope::Source { source_id: "s".to_string() };
    let mut job = create_index_job("store", source.clone());
    fail_index_job(&mut job, "broken".to_string());
    assert_eq!(job.scope, source);
    assert_eq!(job.state, IndexJobState::Failed);
    assert_eq!(job.error.as_deref(), Some("broken"));
    assert!(job.error_code.is_none());
    fail_index_job_with_error(&mut job, &Error::StoreNotFound { id: "x".to_string() });
    assert_eq!(job.error.as_deref(), Some("x"));
    assert_eq!(job.error_code.as_deref(), Some("store_not_found"));
    fail_index_job_with_error(&mut job, &Error::IndexInProgress);
    assert_eq!(job.error, Some(Error::IndexInProgress.to_string()));
    assert_eq!(job.error_code.as_deref(), Some("index_in_progress"));
}

#[test]
fn stores_are_stale_under_another_policy() {
    assert!(!is_store_stale(0, Some("p0"), "p1"));
    assert!(!is_store_stale(5, None, "p1"));
    assert!(!is_store_stale(5, Some("p1"), "p1"));
    assert!(is_store_stale(5, Some("p0"), "p1"));
}
