//! Heading index of a Markdown text.

use localdb_core::heading_index::{build_heading_index, heading_path_at};

#[test]
fn empty_markdown_produces_empty_index() {
    let idx = build_heading_index("");
    assert!(idx.is_empty());
}

#[test]
fn prose_without_headings_produces_empty_index() {
    let idx = build_heading_index("Just some prose with no headings.");
    assert!(idx.is_empty());
}

#[test]
fn single_h1_index_entry() {
    let md = "# Introduction\n\nSome paragraph.";
    let idx = build_heading_index(md);
    assert_eq!(idx.len(), 1);
    assert_eq!(idx[0].1, vec!["Introduction"]);
}

#[test]
fn nested_headings_produce_cumulative_paths() {
    let md = "# API\n\n## Auth\n\nContent.\n";
    let idx = build_heading_index(md);
    assert_eq!(idx.len(), 2);
    assert_eq!(idx[0].1, vec!["API"]);
    assert_eq!(idx[1].1, vec!["API", "Auth"]);
}

#[test]
fn heading_path_resets_when_parent_changes() {
    let md = "# A\n\n## B\n\n# C\n\nContent.";
    let idx = build_heading_index(md);
    let last = idx.last().unwrap();
    assert_eq!(last.1, vec!["C"], "new H1 clears all deeper levels");
}

#[test]
fn heading_path_at_before_first_heading_is_empty() {
    let md = "Preamble text.\n\n# Heading\n\nContent.";
    let idx = build_heading_index(md);
    let path = heading_path_at(&idx, 0);
    assert!(path.is_empty(), "before any heading, path must be empty");
}

#[test]
fn heading_path_at_after_heading_returns_path() {
    let md = "# Intro\n\nParagraph.";
    let idx = build_heading_index(md);
    let h_offset = idx[0].0;
    let path = heading_path_at(&idx, h_offset + 10);
    assert_eq!(path, vec!["Intro"]);
}

#[test]
fn binary_search_exact_match() {
    let md = "# First\n\n# Second\n\nContent.";
    let idx = build_heading_index(md);
    let second_offset = idx[1].0;
    let path = heading_path_at(&idx, second_offset);
    assert_eq!(path, vec!["Second"]);
}

#[test]
fn three_level_path() {
    let md = "# A\n\n## B\n\n### C\n\nDeep content.";
    let idx = build_heading_index(md);
    assert_eq!(idx.len(), 3);
    assert_eq!(idx[2].1, vec!["A", "B", "C"]);
    let path = heading_path_at(&idx, idx[2].0 + 5);
    assert_eq!(path, vec!["A", "B", "C"]);
}
