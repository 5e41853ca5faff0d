//! Identity of entities.

use localdb_core::ids::{
    chunk_id, compute_feed_inputs_digest, compute_metadata_hash, content_hash, new_ulid,
    resource_id,
};

#[test]
fn ulid_is_non_empty() {
    let id = new_ulid();
    assert!(!id.is_empty());
}

#[test]
fn ulids_are_unique() {
    let a = new_ulid();
    let b = new_ulid();
    assert_ne!(a, b, "two ULIDs must not collide");
}

#[test]
fn ulid_is_26_chars() {
    let id = new_ulid();
    assert_eq!(id.len(), 26, "ULID should be 26 chars, got: {id}");
}

#[test]
fn same_content_produces_same_resource_id() {
    let uri = "file:///home/user/docs/notes.md";
    let hash = content_hash("Hello, world!");
    let id1 = resource_id(uri, &hash);
    let id2 = resource_id(uri, &hash);
    assert_eq!(id1, id2, "same content must produce same document ID");
}

#[test]
fn different_content_produces_different_resource_id() {
    let uri = "file:///home/user/docs/notes.md";
    let hash1 = content_hash("Hello, world!");
    let hash2 = content_hash("Goodbye, world!");
    let id1 = resource_id(uri, &hash1);
    let id2 = resource_id(uri, &hash2);
    assert_ne!(
        id1, id2,
        "changed content must produce a different document ID"
    );
}

#[test]
fn different_uri_produces_different_resource_id() {
    let hash = content_hash("Same content");
    let id1 = resource_id("file:///path/a.md", &hash);
    let id2 = resource_id("file:///path/b.md", &hash);
    assert_ne!(
        id1, id2,
        "different URIs with same content must produce different document IDs"
    );
}

#[test]
fn resource_id_is_hex_string() {
    let hash = content_hash("test");
    let id = resource_id("file:///test.md", &hash);
    assert!(
        id.chars().all(|c| c.is_ascii_hexdigit()),
        "document ID must be a hex string"
    );
    assert_eq!(id.len(), 64, "blake3 hex output is 64 chars");
}

#[test]
fn same_text_produces_same_content_hash() {
    let h1 = content_hash("Hello, world!");
    let h2 = content_hash("Hello, world!");
    assert_eq!(h1, h2, "same text must produce same content hash");
}

#[test]
fn different_text_produces_different_content_hash() {
    let h1 = content_hash("Hello, world!");
    let h2 = content_hash("Hello, World!");
    assert_ne!(h1, h2, "different text must produce different content hash");
}

#[test]
fn empty_text_has_stable_hash() {
    let h1 = content_hash("");
    let h2 = content_hash("");
    assert_eq!(h1, h2);
}

#[test]
fn same_content_produces_same_chunk_id() {
    let doc_id = resource_id("file:///notes.md", &content_hash("doc text"));
    let id1 = chunk_id(&doc_id, 0, "chunk text here", 0);
    let id2 = chunk_id(&doc_id, 0, "chunk text here", 0);
    assert_eq!(id1, id2, "same inputs must produce same chunk ID");
}

#[test]
fn changed_chunk_text_produces_different_chunk_id() {
    let doc_id = resource_id("file:///notes.md", &content_hash("doc text"));
    let id1 = chunk_id(&doc_id, 0, "original chunk", 0);
    let id2 = chunk_id(&doc_id, 0, "modified chunk", 0);
    assert_ne!(id1, id2, "changed chunk text must produce different ID");
}

#[test]
fn changed_seq_in_block_produces_different_chunk_id() {
    let doc_id = resource_id("file:///notes.md", &content_hash("doc text"));
    let text = "chunk text";
    let id1 = chunk_id(&doc_id, 0, text, 0);
    let id2 = chunk_id(&doc_id, 0, text, 1);
    assert_ne!(
        id1, id2,
        "changed seq_in_block must produce different chunk ID"
    );
}

#[test]
fn changed_resource_id_produces_different_chunk_id() {
    let doc_id1 = resource_id("file:///doc1.md", &content_hash("content1"));
    let doc_id2 = resource_id("file:///doc2.md", &content_hash("content2"));
    let id1 = chunk_id(&doc_id1, 0, "same text", 0);
    let id2 = chunk_id(&doc_id2, 0, "same text", 0);
    assert_ne!(
        id1, id2,
        "different document must produce different chunk ID"
    );
}

#[test]
fn chunk_id_is_hex_string() {
    let doc_id = resource_id("file:///test.md", &content_hash("test"));
    let id = chunk_id(&doc_id, 0, "chunk", 0);
    assert!(
        id.chars().all(|c| c.is_ascii_hexdigit()),
        "chunk ID must be a hex string"
    );
    assert_eq!(id.len(), 64, "blake3 hex output is 64 chars");
}

#[test]
fn different_block_seq_produces_different_chunk_id() {
    let doc_id = resource_id("file:///notes.md", &content_hash("doc text"));
    let id1 = chunk_id(&doc_id, 0, "identical text", 0);
    let id2 = chunk_id(&doc_id, 1, "identical text", 0);
    assert_ne!(
        id1, id2,
        "different block_seq must produce different chunk ID"
    );
}

#[test]
fn resource_id_stable_across_reruns() {
    let uri = "file:///data/report.md";
    let text = "# Report\n\nSome content here.";
    let hash = content_hash(text);
    let id_run1 = resource_id(uri, &hash);
    let id_run2 = resource_id(uri, &hash);
    assert_eq!(
        id_run1, id_run2,
        "document ID must be stable across re-runs"
    );
}

#[test]
fn chunk_id_stable_across_reruns() {
    let uri = "file:///data/report.md";
    let text = "# Report\n\nSome content here.";
    let hash = content_hash(text);
    let doc_id = resource_id(uri, &hash);
    let chunk_text = "Some content here.";
    let id_run1 = chunk_id(&doc_id, 0, chunk_text, 0);
    let id_run2 = chunk_id(&doc_id, 0, chunk_text, 0);
    assert_eq!(id_run1, id_run2, "chunk ID must be stable across re-runs");
}

fn doc_metadata(title: Option<&str>) -> String {
    match title {
        Some(title) => format!("{{\"dublin_core\":{{\"title\":\"{title}\"}}}}"),
        None => "{\"dublin_core\":{}}".to_string(),
    }
}

#[test]
fn metadata_hash_is_deterministic() {
    let m = doc_metadata(Some("Title"));
    let h1 = compute_metadata_hash(&m, Some("ext-1"), Some("etag-1"), None);
    let h2 = compute_metadata_hash(&m, Some("ext-1"), Some("etag-1"), None);
    assert_eq!(h1, h2);
}

#[test]
fn metadata_hash_is_hex_encoded_blake3() {
    let m = doc_metadata(None);
    let h = compute_metadata_hash(&m, None, None, None);
    assert_eq!(h.len(), 64, "expected 64-char hex string, got: {h}");
    assert!(h.chars().all(|c| c.is_ascii_hexdigit()));
}

#[test]
fn metadata_hash_changes_when_metadata_changes() {
    let a = doc_metadata(Some("A"));
    let b = doc_metadata(Some("B"));
    let ha = compute_metadata_hash(&a, None, None, None);
    let hb = compute_metadata_hash(&b, None, None, None);
    assert_ne!(ha, hb);
}

#[test]
fn metadata_hash_changes_when_external_id_changes() {
    let m = doc_metadata(Some("Title"));
    let h1 = compute_metadata_hash(&m, Some("a"), None, None);
    let h2 = compute_metadata_hash(&m, Some("b"), None, None);
    assert_ne!(h1, h2);
}

#[test]
fn metadata_hash_changes_when_external_etag_changes() {
    let m = doc_metadata(Some("Title"));
    let h1 = compute_metadata_hash(&m, None, Some("a"), None);
    let h2 = compute_metadata_hash(&m, None, Some("b"), None);
    assert_ne!(h1, h2);
}

#[test]
fn metadata_hash_field_boundary_is_unambiguous() {
    let m = doc_metadata(None);
    let h1 = compute_metadata_hash(&m, Some("ab"), Some("c"), None);
    let h2 = compute_metadata_hash(&m, Some("a"), Some("bc"), None);
    assert_ne!(h1, h2);
}

#[test]
fn metadata_hash_distinguishes_none_from_empty_external_fields() {
    let m = doc_metadata(Some("Title"));
    let h_none = compute_metadata_hash(&m, None, None, None);
    let h_empty = compute_metadata_hash(&m, Some(""), Some(""), None);
    assert_ne!(
        h_none, h_empty,
        "external_id/external_etag of None must hash differently from Some(\"\")"
    );
}

#[test]
fn metadata_hash_treats_backfilled_title_as_ordinary_metadata() {
    let backfilled = doc_metadata(Some("Backfilled Title"));
    let h1 = compute_metadata_hash(&backfilled, None, None, None);
    let h2 = compute_metadata_hash(&backfilled, None, None, None);
    assert_eq!(
        h1, h2,
        "hashing post-backfill metadata must be deterministic"
    );
}

#[test]
fn metadata_hash_changes_when_modified_at_changes() {
    let m = doc_metadata(Some("Title"));
    let h_none = compute_metadata_hash(&m, None, None, None);
    let h_claim = compute_metadata_hash(&m, None, None, Some("2020-01-01T00:00:00Z"));
    assert_ne!(
        h_none, h_claim,
        "a source claim must hash differently from no claim"
    );
}

#[test]
fn metadata_hash_none_modified_at_is_stable_across_calls() {
    let m = doc_metadata(Some("Title"));
    let h1 = compute_metadata_hash(&m, None, None, None);
    let h2 = compute_metadata_hash(&m, None, None, None);
    assert_eq!(h1, h2, "None modified_at must hash identically every run");
}

#[test]
fn metadata_hash_distinguishes_none_from_empty_modified_at() {
    let m = doc_metadata(Some("Title"));
    let h_none = compute_metadata_hash(&m, None, None, None);
    let h_empty = compute_metadata_hash(&m, None, None, Some(""));
    assert_ne!(
        h_none, h_empty,
        "modified_at of None must hash differently from Some(\"\")"
    );
}

#[test]
fn feed_inputs_digest_is_stable_for_identical_inputs() {
    assert_eq!(
        compute_feed_inputs_digest("policy-v1", true, Some(10)),
        compute_feed_inputs_digest("policy-v1", true, Some(10))
    );
}

#[test]
fn feed_inputs_digest_changes_with_each_input_independently() {
    let base = compute_feed_inputs_digest("policy-v1", true, Some(10));
    assert_ne!(
        base,
        compute_feed_inputs_digest("policy-v2", true, Some(10))
    );
    assert_ne!(
        base,
        compute_feed_inputs_digest("policy-v1", false, Some(10))
    );
    assert_ne!(base, compute_feed_inputs_digest("policy-v1", true, Some(5)));
    assert_ne!(base, compute_feed_inputs_digest("policy-v1", true, None));
}

#[test]
fn feed_inputs_digest_separators_prevent_field_bleed() {
    assert_ne!(
        compute_feed_inputs_digest("a", true, Some(12)),
        compute_feed_inputs_digest("a", true, Some(1))
    );
    assert_ne!(
        compute_feed_inputs_digest("ab", true, None),
        compute_feed_inputs_digest("a", true, None)
    );
}
