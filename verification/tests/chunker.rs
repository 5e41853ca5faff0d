//! Chunking of documents.

use localdb_core::block::{Block, BlockKind};
use localdb_core::chunker::{
    chunk_blocks, chunk_code, chunk_messages, chunk_prose, chunk_table, preset_for, CharSizer,
    ChunkOutput, ChunkSizer, ChunkerConfig, TokenSizer, OVERLONG_LINE_MULTIPLIER,
    STRUCTURELESS_RUN_MULTIPLIER,
};
use localdb_core::ids::{chunk_id, resource_id};

fn words(t: &str) -> usize {
    t.split_whitespace().count()
}

fn word_sizer() -> TokenSizer<fn(&str) -> usize> {
    TokenSizer::new(words as fn(&str) -> usize)
}

fn char_before(s: &str, pos: usize) -> Option<char> {
    s[..pos].chars().next_back()
}

fn char_at(s: &str, pos: usize) -> Option<char> {
    s[pos..].chars().next()
}

fn assert_no_mid_word_splits(source: &str, chunks: &[ChunkOutput]) {
    for c in chunks {
        let start = c.span.start;
        let end = c.span.end;
        if let (Some(prev), Some(first)) = (char_before(source, start), char_at(source, start))
        {
            assert!(
                !(prev.is_alphanumeric() && first.is_alphanumeric()),
                "mid-word split at chunk start (byte {start}): preceding char {prev:?}, \
                 chunk's first char {first:?}"
            );
        }
        if let (Some(last), Some(next)) = (char_before(source, end), char_at(source, end)) {
            assert!(
                !(last.is_alphanumeric() && next.is_alphanumeric()),
                "mid-word split at chunk end (byte {end}): chunk's last char {last:?}, \
                 following char {next:?}"
            );
        }
    }
}

#[test]
fn chunker_config_prose_defaults() {
    let cfg = ChunkerConfig::prose();
    assert_eq!(cfg.preset, "prose");
    assert_eq!(cfg.resolved_target_tokens(), 256);
    assert_eq!(cfg.resolved_overlap_tokens(), 0);
}

#[test]
fn chunker_config_code_defaults() {
    let cfg = ChunkerConfig::code();
    assert_eq!(cfg.preset, "code");
    assert_eq!(cfg.resolved_target_tokens(), 3000);
}

#[test]
fn chunker_config_from_preset_prose() {
    let cfg = ChunkerConfig::from_preset("prose").unwrap();
    assert_eq!(cfg.preset, "prose");
}

#[test]
fn chunker_config_from_preset_code() {
    let cfg = ChunkerConfig::from_preset("code").unwrap();
    assert_eq!(cfg.preset, "code");
}

#[test]
fn chunker_config_from_preset_messages_succeeds() {
    let cfg = ChunkerConfig::from_preset("messages").unwrap();
    assert_eq!(cfg.preset, "messages");
    assert_eq!(cfg.resolved_window_turns(), 6);
    assert_eq!(cfg.resolved_stride_turns(), 3);
}

#[test]
fn chunker_config_from_preset_unknown_errors() {
    let result = ChunkerConfig::from_preset("unknown_preset");
    assert!(result.is_err());
    assert_eq!(result.unwrap_err().code(), "invalid_request");
}

#[test]
fn prose_chunk_empty_document_returns_empty() {
    let doc_id = resource_id("file:///test.md", "abc123");
    let cfg = ChunkerConfig::prose();
    let result = chunk_prose(&doc_id, "", &cfg, &CharSizer, 0).unwrap();
    assert!(result.is_empty(), "empty doc should produce no chunks");
}

#[test]
fn prose_chunk_single_paragraph() {
    let full_text = "Hello, this is a paragraph.";
    let doc_id = resource_id("file:///test.md", "abc");
    let cfg = ChunkerConfig::prose();

    let chunks = chunk_prose(&doc_id, full_text, &cfg, &CharSizer, 0).unwrap();
    assert!(!chunks.is_empty(), "should produce at least one chunk");
    assert!(
        chunks.iter().any(|c| c.text.contains("Hello")),
        "chunk should contain the paragraph text"
    );
}

#[test]
fn prose_chunk_span_references_markdown() {
    let full_text = "# Introduction\n\nThis is the intro paragraph.";
    let doc_id = resource_id("file:///test.md", "abc");
    let cfg = ChunkerConfig::prose();

    let chunks = chunk_prose(&doc_id, full_text, &cfg, &CharSizer, 0).unwrap();
    assert!(!chunks.is_empty());
    for chunk in &chunks {
        assert!(chunk.span.start <= chunk.span.end, "span start <= end");
        assert!(!chunk.text.is_empty(), "chunk text must be non-empty");
    }
    assert!(
        chunks
            .iter()
            .any(|c| c.text.contains("Introduction") || c.text.contains("intro")),
        "chunks should contain expected text"
    );
}

#[test]
fn prose_spans_round_trip() {
    let full_text =
        "# Heading One\n\nParagraph one with some words.\n\n## Heading Two\n\nParagraph two here.";
    let doc_id = resource_id("file:///rt.md", "abc");
    let cfg = ChunkerConfig::prose();
    let chunks = chunk_prose(&doc_id, full_text, &cfg, &word_sizer(), 0).unwrap();
    assert!(!chunks.is_empty());
    for c in &chunks {
        assert!(
            c.span.start <= c.span.end,
            "span start must be <= span end (sanity check)"
        );
    }
}

#[test]
fn prose_span_slices_exactly_equal_chunk_text() {
    let full_text =
        "# Heading One\n\nParagraph one with some words.\n\n## Heading Two\n\nParagraph two here.";
    let doc_id = resource_id("file:///exact.md", "abc");
    let cfg = ChunkerConfig::prose();
    let chunks = chunk_prose(&doc_id, full_text, &cfg, &word_sizer(), 0).unwrap();
    assert!(!chunks.is_empty());
    for c in &chunks {
        assert_eq!(
            &full_text[c.span.start..c.span.end],
            c.text,
            "span slice must exactly equal chunk text"
        );
    }
}

#[test]
fn prose_adjacent_span_gaps_are_whitespace_only() {
    let para = "word ".repeat(40);
    let mut full_text = String::new();
    for i in 0..6 {
        full_text.push_str(&format!("## Section {i}\n\n{para}\n\n"));
    }
    let doc_id = resource_id("file:///gaps.md", "abc");
    let cfg = ChunkerConfig {
        preset: "prose".to_string(),
        target_tokens: Some(60),
        overlap_tokens: Some(0),
        window_turns: None,
        stride_turns: None,
    };
    let chunks = chunk_prose(&doc_id, &full_text, &cfg, &word_sizer(), 0).unwrap();
    assert!(
        chunks.len() >= 2,
        "should produce multiple chunks to exercise gaps, got {}",
        chunks.len()
    );
    for pair in chunks.windows(2) {
        let (a, b) = (&pair[0], &pair[1]);
        assert!(
            a.span.end <= b.span.start,
            "chunks must be non-overlapping and in span order: {} > {}",
            a.span.end,
            b.span.start
        );
        let gap = &full_text[a.span.end..b.span.start];
        assert!(
            gap.chars().all(|c| c.is_whitespace()),
            "gap between adjacent chunks must be whitespace-only, got: {gap:?}"
        );
    }
}

#[test]
fn prose_respects_token_target_with_word_sizer() {
    let para = "word ".repeat(40);
    let mut full_text = String::new();
    for i in 0..10 {
        full_text.push_str(&format!("## Section {i}\n\n{para}\n\n"));
    }
    let doc_id = resource_id("file:///long.md", "abc");
    let cfg = ChunkerConfig {
        preset: "prose".to_string(),
        target_tokens: Some(60),
        overlap_tokens: Some(8),
        window_turns: None,
        stride_turns: None,
    };
    let chunks = chunk_prose(&doc_id, &full_text, &cfg, &word_sizer(), 0).unwrap();
    assert!(
        chunks.len() >= 2,
        "long doc should produce multiple chunks, got {}",
        chunks.len()
    );
    for c in &chunks {
        assert!(
            word_sizer().size(&c.text) <= 60,
            "chunk should respect token target: {} words",
            word_sizer().size(&c.text)
        );
    }
}

#[test]
fn prose_chunks_in_document_order() {
    let para = "word ".repeat(40);
    let mut full_text = String::new();
    for i in 0..6 {
        full_text.push_str(&format!("## Section {i}\n\n{para}\n\n"));
    }
    let doc_id = resource_id("file:///order.md", "abc");
    let cfg = ChunkerConfig {
        preset: "prose".to_string(),
        target_tokens: Some(60),
        overlap_tokens: Some(0),
        window_turns: None,
        stride_turns: None,
    };
    let chunks = chunk_prose(&doc_id, &full_text, &cfg, &word_sizer(), 0).unwrap();
    assert!(chunks.len() >= 2, "should produce at least 2 chunks");
}

#[test]
fn prose_char_sizer_fallback_produces_chunks() {
    let full_text = "# Title\n\nSome prose content here for the char sizer fallback path.";
    let doc_id = resource_id("file:///char.md", "abc");
    let cfg = ChunkerConfig::prose();
    let chunks = chunk_prose(&doc_id, full_text, &cfg, &CharSizer, 0).unwrap();
    assert!(
        !chunks.is_empty(),
        "char sizer fallback should produce chunks"
    );
}

#[test]
fn prose_chunk_large_text_splits_into_multiple_chunks() {
    let para = "word ".repeat(100);
    let mut full_text = String::new();
    for i in 0..8 {
        full_text.push_str(&format!("## Para {i}\n\n{para}\n\n"));
    }
    let doc_id = resource_id("file:///large.md", "hash");
    let cfg = ChunkerConfig {
        preset: "prose".to_string(),
        target_tokens: Some(80),
        overlap_tokens: Some(0),
        window_turns: None,
        stride_turns: None,
    };
    let chunks = chunk_prose(&doc_id, &full_text, &cfg, &word_sizer(), 0).unwrap();
    assert!(
        chunks.len() >= 2,
        "large document should produce multiple chunks, got {}",
        chunks.len()
    );
}

#[test]
fn prose_chunk_ids_are_content_addressed() {
    let full_text = "Hello world this is content.";
    let doc_id = resource_id("file:///test.md", "abc");
    let cfg = ChunkerConfig::prose();

    let chunks1 = chunk_prose(&doc_id, full_text, &cfg, &CharSizer, 0).unwrap();
    let chunks2 = chunk_prose(&doc_id, full_text, &cfg, &CharSizer, 0).unwrap();

    assert_eq!(chunks1.len(), chunks2.len());
    for (c1, c2) in chunks1.iter().zip(chunks2.iter()) {
        assert_eq!(c1.id, c2.id, "chunk IDs must be deterministic");
    }
}

#[test]
fn prose_chunk_heading_path_inherited_from_markdown() {
    let full_text = "# API\n\nAPI documentation.\n\n# Auth\n\nAuth documentation.";
    let doc_id = resource_id("file:///api.md", "abc");
    let cfg = ChunkerConfig {
        preset: "prose".to_string(),
        target_tokens: Some(8),
        overlap_tokens: Some(0),
        window_turns: None,
        stride_turns: None,
    };

    let chunks = chunk_prose(&doc_id, full_text, &cfg, &word_sizer(), 0).unwrap();
    assert!(!chunks.is_empty());
    let with_path: Vec<_> = chunks
        .iter()
        .filter(|c| !c.heading_path.is_empty())
        .collect();
    assert!(
        !with_path.is_empty(),
        "at least one chunk should have heading_path"
    );
}

#[test]
fn prose_multibyte_utf8_no_panic() {
    let text = "こんにちは world — это тест";
    let doc_id = "doc-multibyte";
    let result = chunk_prose(doc_id, text, &ChunkerConfig::prose(), &CharSizer, 0);
    assert!(
        result.is_ok(),
        "chunking multi-byte text should not panic: {:?}",
        result.err()
    );
}

#[test]
fn prose_overlap_skipped_when_at_or_above_cap_start() {
    let para = "word ".repeat(50);
    let mut full_text = String::new();
    for i in 0..4 {
        full_text.push_str(&format!("## Section {i}\n\n{para}\n\n"));
    }
    let doc_id = resource_id("file:///overlap_guard.md", "abc");
    let cfg = ChunkerConfig {
        preset: "prose".to_string(),
        target_tokens: Some(80),
        overlap_tokens: Some(60),
        window_turns: None,
        stride_turns: None,
    };
    let chunks = chunk_prose(&doc_id, &full_text, &cfg, &word_sizer(), 0).unwrap();
    assert!(
        !chunks.is_empty(),
        "should produce chunks even with skipped overlap"
    );
    for w in chunks.windows(2) {
        assert!(
            w[0].span.start <= w[1].span.start,
            "chunks must be in order"
        );
    }
}

#[test]
fn prose_oversized_single_atomic_unit_no_panic() {
    let long_word = "a".repeat(2000);
    let full_text = format!("# Title\n\n{long_word}");
    let doc_id = resource_id("file:///oversized.md", "abc");
    let cfg = ChunkerConfig {
        preset: "prose".to_string(),
        target_tokens: Some(20),
        overlap_tokens: Some(0),
        window_turns: None,
        stride_turns: None,
    };
    let result = chunk_prose(&doc_id, &full_text, &cfg, &CharSizer, 0);
    assert!(
        result.is_ok(),
        "oversized atomic unit should not panic: {:?}",
        result.err()
    );
    let chunks = result.unwrap();
    assert!(!chunks.is_empty());
}

#[test]
fn prose_splitter_sees_real_markdown_structure() {
    let md =
        "# Section One\n\nContent of section one.\n\n# Section Two\n\nContent of section two.";
    let doc_id = resource_id("file:///structure.md", "abc");
    let cfg = ChunkerConfig {
        preset: "prose".to_string(),
        target_tokens: Some(8),
        overlap_tokens: Some(0),
        window_turns: None,
        stride_turns: None,
    };
    let chunks = chunk_prose(&doc_id, md, &cfg, &word_sizer(), 0).unwrap();
    assert!(
        chunks.iter().any(|c| c.text.contains('#')),
        "at least one chunk should contain the # heading marker; got: {:?}",
        chunks.iter().map(|c| &c.text).collect::<Vec<_>>()
    );
}

#[test]
fn code_chunk_empty_returns_empty() {
    let doc_id = resource_id("file:///lib.rs", "abc");
    let cfg = ChunkerConfig::code();
    let chunks = chunk_code(&doc_id, "", &cfg, 0).unwrap();
    assert!(chunks.is_empty());
}

#[test]
fn code_chunk_single_block() {
    let full_text = "fn hello() {\n    println!(\"hi\");\n}";
    let doc_id = resource_id("file:///lib.rs", "abc");
    let cfg = ChunkerConfig::code();

    let chunks = chunk_code(&doc_id, full_text, &cfg, 0).unwrap();
    assert_eq!(chunks.len(), 1);
    assert_eq!(chunks[0].text, full_text);
}

#[test]
fn code_chunk_large_splits() {
    let line = "let x = some_function_with_long_name(arg1, arg2, arg3);\n";
    let full_text = line.repeat(100);
    let doc_id = resource_id("file:///lib.rs", "hash");
    let cfg = ChunkerConfig::code();

    let chunks = chunk_code(&doc_id, &full_text, &cfg, 0).unwrap();
    assert!(
        chunks.len() >= 2,
        "large code file should produce multiple chunks"
    );
}

#[test]
fn code_chunk_spans_round_trip() {
    let line = "let x = 1;\n";
    let full_text = line.repeat(200);
    let doc_id = resource_id("file:///lib.rs", "hash");
    let cfg = ChunkerConfig::code();
    let chunks = chunk_code(&doc_id, &full_text, &cfg, 0).unwrap();
    for c in &chunks {
        assert!(
            c.span.start <= c.span.end,
            "span start must be <= span end (sanity check)"
        );
        assert_eq!(
            &full_text[c.span.start..c.span.end],
            c.text,
            "span slice must exactly equal chunk text"
        );
    }
}

#[test]
fn chunk_blocks_multibyte_code_preset_does_not_panic() {
    let unit = "日本語テキスト: これはテストです。 ";
    let text = unit.repeat(200);
    let doc_id = "doc-multibyte-code";
    let result = chunk_code(doc_id, &text, &ChunkerConfig::code(), 0);
    assert!(
        result.is_ok(),
        "code chunking multi-byte text should not panic: {:?}",
        result.err()
    );
}

#[test]
fn preset_for_routes_code_extensions() {
    assert_eq!(preset_for(Some("lib.rs"), None), "code");
    assert_eq!(preset_for(Some("data.json"), None), "code");
    assert_eq!(preset_for(Some("config.toml"), None), "code");
    assert_eq!(preset_for(Some("Cargo.lock"), None), "code");
    assert_eq!(preset_for(None, Some("application/json")), "code");
    assert_eq!(preset_for(None, Some("text/x-rust")), "code");
}

#[test]
fn preset_for_routes_prose() {
    assert_eq!(preset_for(Some("README.md"), None), "prose");
    assert_eq!(preset_for(Some("notes.txt"), None), "prose");
    assert_eq!(preset_for(Some("page.html"), None), "prose");
    assert_eq!(preset_for(Some("doc.pdf"), None), "prose");
    assert_eq!(preset_for(None, Some("text/plain")), "prose");
}

#[test]
fn code_hard_splits_overlong_line() {
    let long_line = "x".repeat(100_000);
    let doc_id = "doc-overlong";
    let cfg = ChunkerConfig::code();
    let chunks = chunk_code(doc_id, &long_line, &cfg, 0).unwrap();
    assert!(
        chunks.len() >= 2,
        "overlong line should produce multiple chunks, got {}",
        chunks.len()
    );
    for c in &chunks {
        assert!(
            c.text.chars().count() <= 3000,
            "each chunk must be within target: {} chars",
            c.text.chars().count()
        );
    }
}

#[test]
fn code_hard_split_prefers_whitespace_boundary() {
    let word = "alphabet";
    let mut long_line = String::new();
    while long_line.len() < 10_000 {
        long_line.push_str(word);
        long_line.push(' ');
    }
    let doc_id = "doc-overlong-words";
    let cfg = ChunkerConfig::code();
    let chunks = chunk_code(doc_id, &long_line, &cfg, 0).unwrap();
    assert!(
        chunks.len() >= 2,
        "overlong line should produce multiple chunks, got {}",
        chunks.len()
    );
    assert_no_mid_word_splits(&long_line, &chunks);
}

#[test]
fn code_hard_split_no_whitespace_falls_back_to_char_cut() {
    let alphabet = "abcdefghijklmnopqrstuvwxyzABCDEFGHIJKLMNOPQRSTUVWXYZ0123456789";
    let long_line: String = alphabet.chars().cycle().take(10_000).collect();
    assert!(
        !long_line.chars().any(|c| c.is_whitespace()),
        "fixture must contain no whitespace"
    );
    let doc_id = "doc-no-whitespace";
    let cfg = ChunkerConfig::code();
    let chunks = chunk_code(doc_id, &long_line, &cfg, 0).unwrap();
    assert!(
        chunks.len() >= 2,
        "overlong whitespace-free line should still produce multiple chunks, got {}",
        chunks.len()
    );
    for c in &chunks {
        assert!(
            c.text.chars().count() <= 3000,
            "each chunk must be within target: {} chars",
            c.text.chars().count()
        );
    }
    let reassembled: String = chunks.iter().map(|c| c.text.as_str()).collect();
    assert_eq!(reassembled, long_line, "hard char cuts must be lossless");
}

#[test]
fn prose_long_single_line_paragraph_does_not_split_mid_word() {
    let sentence =
        "The quick brown fox jumps over the lazy dog and runs swiftly through the forest. ";
    let mut full_text = String::new();
    while full_text.len() < 2200 {
        full_text.push_str(sentence);
    }
    assert!(!full_text.contains('\n'), "paragraph must be a single line");
    let doc_id = "doc-prose-long-line";
    let cfg = ChunkerConfig::prose();
    let chunks = chunk_prose(doc_id, &full_text, &cfg, &word_sizer(), 0).unwrap();
    assert!(
        chunks.len() >= 2,
        "long single-line paragraph should produce multiple chunks, got {}",
        chunks.len()
    );
    assert_no_mid_word_splits(&full_text, &chunks);
}

#[test]
fn prose_overlong_single_line_hits_perf_guard_no_hang_no_mid_word_splits() {
    let long_line = "word ".repeat(40_000);
    let doc_id = "doc-overlong-line";
    let cfg = ChunkerConfig::prose();
    let target = cfg.resolved_target_tokens();
    let chunks = chunk_prose(doc_id, &long_line, &cfg, &CharSizer, 0).unwrap();
    assert!(
        chunks.len() >= 2,
        "overlong single line should split into multiple chunks, got {}",
        chunks.len()
    );
    for c in &chunks {
        assert!(
            c.text.chars().count() <= target,
            "chunk_code path should bound every chunk to the char target: {} chars",
            c.text.chars().count()
        );
    }
    assert_no_mid_word_splits(&long_line, &chunks);
}

#[test]
fn prose_long_single_line_below_perf_guard_stays_on_prose_path() {
    let sentence = "The quick brown fox jumps over the lazy dog near the riverbank today. ";
    let long_line = sentence.repeat(75).trim_end().to_string();
    assert!(!long_line.contains('\n'));
    let cfg = ChunkerConfig::prose();
    let target = cfg.resolved_target_tokens();
    assert!(long_line.chars().count() > STRUCTURELESS_RUN_MULTIPLIER * target);
    let max_run = long_line
        .split_whitespace()
        .map(|w| w.chars().count())
        .max()
        .unwrap();
    assert!(max_run <= STRUCTURELESS_RUN_MULTIPLIER * target);
    assert!(long_line.chars().count() <= OVERLONG_LINE_MULTIPLIER * target);
    let chunks = chunk_prose("doc-below-guard", &long_line, &cfg, &word_sizer(), 0).unwrap();
    assert!(chunks.len() >= 2, "expected multiple chunks");
    assert!(
        chunks.iter().any(|c| c.text.chars().count() > target),
        "prose path should pack chunks beyond the char target (word-capped, not char-capped)"
    );
    assert_no_mid_word_splits(&long_line, &chunks);
}

#[test]
fn prose_cjk_long_paragraph_pins_char_cut_limitation() {
    let sentence = "深度学习模型通过大量标注数据进行训练以逐步提高预测准确性。";
    let cfg = ChunkerConfig::prose();
    let target = cfg.resolved_target_tokens();
    let para = sentence.repeat(2048 / sentence.chars().count() + 2);
    assert!(para.chars().count() > STRUCTURELESS_RUN_MULTIPLIER * target);
    assert!(!para.contains(char::is_whitespace));
    let chunks = chunk_prose("doc-cjk", &para, &cfg, &CharSizer, 0).unwrap();
    assert!(chunks.len() >= 2, "expected multiple chunks");
    let mut reassembled = String::new();
    for c in &chunks {
        assert!(c.text.chars().count() <= target);
        assert_eq!(&para[c.span.start..c.span.end], c.text);
        reassembled.push_str(&c.text);
    }
    assert_eq!(reassembled, para);
}

#[test]
fn prose_embedded_long_token_still_uses_line_packer() {
    let target = ChunkerConfig::prose().resolved_target_tokens();
    let huge_token = "a".repeat(target * 9);
    let full_text =
        format!("Some ordinary prose leads into a huge token: {huge_token} and then it ends.");
    let doc_id = "doc-embedded-token";
    let cfg = ChunkerConfig::prose();
    let chunks = chunk_prose(doc_id, &full_text, &cfg, &CharSizer, 0).unwrap();
    assert!(
        chunks.len() >= 2,
        "backstop should route to chunk_code and hard-split the oversized token, got {} chunks",
        chunks.len()
    );
    for c in &chunks {
        assert!(
            c.text.chars().count() <= target,
            "chunk_code path should bound every chunk to the char target: {} chars",
            c.text.chars().count()
        );
    }
}

#[test]
fn regression_minified_json_does_not_hang() {
    let unit = r#"{"key":"value","#;
    let reps = 100_000 / unit.len();
    let content = unit.repeat(reps);
    let doc_id = "doc-minified-json";
    let cfg = ChunkerConfig::code();
    let chunks = chunk_code(doc_id, &content, &cfg, 0).unwrap();
    assert!(
        chunks.len() > 1,
        "minified JSON must split into multiple chunks, got {}",
        chunks.len()
    );
    let target = cfg.resolved_target_tokens();
    for c in &chunks {
        let char_count = c.text.chars().count();
        assert!(
            char_count <= 2 * target,
            "chunk exceeds 2× target ({} chars, target {})",
            char_count,
            target
        );
    }
}

#[test]
fn regression_code_file_uses_line_chunker_not_prose() {
    assert_eq!(
        preset_for(Some("main.rs"), None),
        "code",
        "main.rs must route to the code chunker"
    );
}

#[test]
fn regression_prose_file_uses_prose_chunker() {
    assert_eq!(
        preset_for(Some("README.md"), None),
        "prose",
        "README.md must route to the prose chunker"
    );
}

#[test]
fn regression_cargo_lock_uses_line_chunker() {
    assert_eq!(
        preset_for(Some("Cargo.lock"), None),
        "code",
        "Cargo.lock must route to the code chunker"
    );
}

#[test]
fn preset_for_spreadsheet_exts_is_code() {
    assert_eq!(preset_for(Some("sheet.xlsx"), None), "code");
    assert_eq!(preset_for(Some("sheet.xls"), None), "code");
    assert_eq!(preset_for(Some("SHEET.XLSX"), None), "code");
}

#[test]
fn preset_for_docx_pptx_is_prose() {
    assert_eq!(preset_for(Some("report.docx"), None), "prose");
    assert_eq!(preset_for(Some("slides.pptx"), None), "prose");
}

#[test]
fn preset_for_csv_is_code() {
    assert_eq!(preset_for(Some("data.csv"), None), "code");
}

fn msg_block(seq: u32, sender: &str, timestamp: &str, text: &str) -> Block {
    Block {
        seq,
        kind: BlockKind::Message {
            sender: sender.to_string(),
            timestamp: Some(timestamp.to_string()),
            message_id: None,
            reply_to: None,
        },
        text: text.to_string(),
        location: None,
    }
}

fn seg_block(
    seq: u32,
    speaker: Option<&str>,
    start_ms: u64,
    end_ms: u64,
    text: &str,
) -> Block {
    Block {
        seq,
        kind: BlockKind::Segment {
            speaker: speaker.map(|s| s.to_string()),
            start_ms,
            end_ms,
        },
        text: text.to_string(),
        location: None,
    }
}

#[test]
fn messages_empty_conversation_returns_no_chunks() {
    let blocks: Vec<Block> = vec![Block {
        seq: 0,
        kind: BlockKind::Text,
        text: "Some intro text.".to_string(),
        location: None,
    }];
    let cfg = ChunkerConfig::messages();
    let chunks = chunk_messages("resource-1", &blocks, &cfg, &CharSizer).unwrap();
    assert!(chunks.is_empty(), "no message blocks → no chunks");
}

#[test]
fn messages_single_message_produces_one_chunk() {
    let blocks = vec![msg_block(
        0,
        "Alice",
        "2026-01-01T10:00:00Z",
        "Hello there!",
    )];
    let cfg = ChunkerConfig::messages();
    let chunks = chunk_messages("resource-1", &blocks, &cfg, &CharSizer).unwrap();
    assert_eq!(chunks.len(), 1, "single message → single chunk");
    assert!(
        chunks[0].text.contains("Hello there!"),
        "chunk should contain message text"
    );
    assert_eq!(chunks[0].window_block_seqs, vec![0]);
    assert_eq!(chunks[0].block_seq, 0);
    assert_eq!(chunks[0].seq_in_block, 0);
}

#[test]
fn messages_sliding_window_correct_chunk_count() {
    let blocks: Vec<_> = (0..10)
        .map(|i| msg_block(i as u32, "User", "2026-01-01", &format!("Message {i}")))
        .collect();
    let cfg = ChunkerConfig {
        preset: "messages".to_string(),
        target_tokens: Some(5000),
        overlap_tokens: Some(0),
        window_turns: Some(6),
        stride_turns: Some(3),
    };
    let chunks = chunk_messages("resource-1", &blocks, &cfg, &CharSizer).unwrap();
    assert_eq!(
        chunks.len(),
        4,
        "10 messages, window=6, stride=3 → 4 chunks; got {}",
        chunks.len()
    );
}

#[test]
fn messages_sliding_window_correct_content() {
    let blocks: Vec<_> = (0..10)
        .map(|i| msg_block(i as u32, "User", "2026-01-01", &format!("Msg{i}")))
        .collect();
    let cfg = ChunkerConfig {
        preset: "messages".to_string(),
        target_tokens: Some(5000),
        overlap_tokens: Some(0),
        window_turns: Some(6),
        stride_turns: Some(3),
    };
    let chunks = chunk_messages("resource-1", &blocks, &cfg, &CharSizer).unwrap();
    assert_eq!(chunks.len(), 4);

    assert!(
        chunks[0].text.contains("Msg0"),
        "window 0 should start at Msg0"
    );
    assert!(
        chunks[0].text.contains("Msg5"),
        "window 0 should end at Msg5"
    );
    assert!(
        !chunks[0].text.contains("Msg6"),
        "window 0 should not contain Msg6"
    );
    assert_eq!(chunks[0].window_block_seqs, vec![0, 1, 2, 3, 4, 5]);

    assert!(
        chunks[1].text.contains("Msg3"),
        "window 1 should start at Msg3"
    );
    assert!(
        chunks[1].text.contains("Msg8"),
        "window 1 should end at Msg8"
    );
    assert!(
        !chunks[1].text.contains("Msg9"),
        "window 1 should not contain Msg9"
    );
    assert_eq!(chunks[1].window_block_seqs, vec![3, 4, 5, 6, 7, 8]);

    assert!(
        chunks[2].text.contains("Msg6"),
        "window 2 should start at Msg6"
    );
    assert!(
        chunks[2].text.contains("Msg9"),
        "window 2 should end at Msg9"
    );
    assert_eq!(chunks[2].window_block_seqs, vec![6, 7, 8, 9]);

    assert!(chunks[3].text.contains("Msg9"), "window 3 is the tail");
    assert_eq!(chunks[3].window_block_seqs, vec![9]);
}

#[test]
fn messages_window_text_format() {
    let blocks = vec![
        msg_block(0, "Alice", "2026-01-01T10:00:00Z", "Hello!"),
        msg_block(1, "Bob", "2026-01-01T10:01:00Z", "Hi there!"),
    ];
    let cfg = ChunkerConfig::messages();
    let chunks = chunk_messages("resource-1", &blocks, &cfg, &CharSizer).unwrap();
    assert_eq!(chunks.len(), 1, "2 messages within a window → 1 chunk");
    let text = &chunks[0].text;
    assert!(
        text.contains("[Alice] (2026-01-01T10:00:00Z): Hello!"),
        "should format as [sender] (timestamp): text; got: {text:?}"
    );
    assert!(
        text.contains("[Bob] (2026-01-01T10:01:00Z): Hi there!"),
        "should include second message; got: {text:?}"
    );
}

#[test]
fn messages_segment_blocks_windowing() {
    let blocks: Vec<_> = (0..6)
        .map(|i| {
            seg_block(
                i as u32,
                Some("Speaker"),
                i as u64 * 2000,
                i as u64 * 2000 + 1999,
                &format!("Segment text {i}"),
            )
        })
        .collect();
    let cfg = ChunkerConfig {
        preset: "messages".to_string(),
        target_tokens: Some(5000),
        overlap_tokens: Some(0),
        window_turns: Some(4),
        stride_turns: Some(2),
    };
    let chunks = chunk_messages("resource-1", &blocks, &cfg, &CharSizer).unwrap();
    assert_eq!(
        chunks.len(),
        3,
        "6 segments, window=4, stride=2 → 3 chunks; got {}",
        chunks.len()
    );
    assert!(
        chunks[0]
            .text
            .contains("[Speaker] (0-1999): Segment text 0"),
        "should format segment as [speaker] (start-end): text"
    );
}

#[test]
fn messages_mixed_blocks_only_sees_message_and_segment() {
    let blocks = vec![
        Block {
            seq: 0,
            kind: BlockKind::Heading { level: 1 },
            text: "Conversation".to_string(),
            location: None,
        },
        Block {
            seq: 1,
            kind: BlockKind::Text,
            text: "Intro paragraph.".to_string(),
            location: None,
        },
        msg_block(2, "Alice", "2026-01-01T10:00:00Z", "First message"),
        msg_block(3, "Bob", "2026-01-01T10:01:00Z", "Second message"),
        msg_block(4, "Alice", "2026-01-01T10:02:00Z", "Third message"),
        Block {
            seq: 5,
            kind: BlockKind::Text,
            text: "Interlude paragraph.".to_string(),
            location: None,
        },
        msg_block(6, "Bob", "2026-01-01T10:03:00Z", "Fourth message"),
    ];
    let cfg = ChunkerConfig {
        preset: "messages".to_string(),
        target_tokens: Some(5000),
        overlap_tokens: Some(0),
        window_turns: Some(6),
        stride_turns: Some(3),
    };
    let chunks = chunk_messages("resource-1", &blocks, &cfg, &CharSizer).unwrap();
    assert_eq!(
        chunks.len(),
        2,
        "4 messages, window=6, stride=3 → 2 chunks; got {}",
        chunks.len()
    );
    assert_eq!(chunks[0].window_block_seqs, vec![2, 3, 4, 6]);
    assert!(
        !chunks[0].text.contains("Intro paragraph"),
        "chunker must not include non-message text"
    );
}

#[test]
fn messages_very_long_single_message_splits() {
    let long_text = "word ".repeat(200);
    let blocks = vec![msg_block(0, "Alice", "2026-01-01T10:00:00Z", &long_text)];
    let cfg = ChunkerConfig {
        preset: "messages".to_string(),
        target_tokens: Some(50),
        overlap_tokens: Some(0),
        window_turns: Some(6),
        stride_turns: Some(3),
    };
    let chunks = chunk_messages("resource-1", &blocks, &cfg, &word_sizer()).unwrap();
    assert!(
        chunks.len() > 1,
        "very long message should produce multiple sub-chunks; got {}",
        chunks.len()
    );
    for c in &chunks {
        assert!(
            c.text.contains("[Alice]"),
            "each sub-chunk should preserve sender context; got: {:?}",
            c.text
        );
    }
}

#[test]
fn messages_long_single_message_no_mid_word_splits() {
    let sentence =
        "The quick brown fox jumps over the lazy dog and runs swiftly through the forest. ";
    let mut long_text = String::new();
    while long_text.len() < 2200 {
        long_text.push_str(sentence);
    }
    assert!(
        !long_text.contains('\n'),
        "message body must be a single line"
    );
    let blocks = vec![msg_block(0, "Alice", "2026-01-01T10:00:00Z", &long_text)];
    let cfg = ChunkerConfig {
        preset: "messages".to_string(),
        target_tokens: Some(50),
        overlap_tokens: Some(0),
        window_turns: Some(6),
        stride_turns: Some(3),
    };
    let chunks = chunk_messages("resource-mid-word", &blocks, &cfg, &word_sizer()).unwrap();
    assert!(
        chunks.len() > 1,
        "long single message should split into multiple sub-chunks, got {}",
        chunks.len()
    );
    assert_no_mid_word_splits(&long_text, &chunks);
}

#[test]
fn messages_seq_in_block_sequential() {
    let blocks: Vec<_> = (0..9)
        .map(|i| msg_block(i as u32, "User", "2026-01-01", &format!("Msg{i}")))
        .collect();
    let cfg = ChunkerConfig {
        preset: "messages".to_string(),
        target_tokens: Some(5000),
        overlap_tokens: Some(0),
        window_turns: Some(6),
        stride_turns: Some(3),
    };
    let chunks = chunk_messages("resource-1", &blocks, &cfg, &CharSizer).unwrap();
    for (i, c) in chunks.iter().enumerate() {
        assert_eq!(
            c.seq_in_block, i as u32,
            "seq_in_block should be index {i}; got {}",
            c.seq_in_block
        );
    }
}

#[test]
fn messages_config_default_values() {
    let cfg = ChunkerConfig::messages();
    assert_eq!(cfg.preset, "messages");
    assert_eq!(cfg.resolved_window_turns(), 6);
    assert_eq!(cfg.resolved_stride_turns(), 3);
    assert_eq!(cfg.resolved_target_tokens(), 512);
}

#[test]
fn messages_stride_advances_by_covered_turns_when_window_shrunk() {
    let turns: Vec<_> = (0..10u32)
        .map(|i| msg_block(i, "U", "2026-01-01", "1234567890"))
        .collect();
    let cfg = ChunkerConfig {
        preset: "messages".to_string(),
        target_tokens: Some(5),
        overlap_tokens: Some(0),
        window_turns: Some(3),
        stride_turns: Some(3),
    };
    let chunks = chunk_messages("resource-stride", &turns, &cfg, &CharSizer).unwrap();
    let covered_seqs: std::collections::HashSet<u32> = chunks
        .iter()
        .flat_map(|c| c.window_block_seqs.iter().copied())
        .collect();
    for i in 0u32..10 {
        assert!(
            covered_seqs.contains(&i),
            "turn {i} must appear in at least one window; covered: {covered_seqs:?}"
        );
    }
}

#[test]
fn chunker_code_preset_routes_text_block_through_code_chunker() {
    let block = Block {
        seq: 0,
        kind: BlockKind::Text,
        text: "fn hello() {\n    println!(\"hi\");\n}".to_string(),
        location: None,
    };
    let doc_id = resource_id("file:///test.rs", "abc");
    let cfg = ChunkerConfig::code();
    let chunks = chunk_blocks(&doc_id, &[block], &cfg, &CharSizer).unwrap();
    assert!(
        !chunks.is_empty(),
        "code preset + Text should produce chunks"
    );
    for c in &chunks {
        assert!(c.span.start <= c.span.end, "span start <= end");
    }
}

#[test]
fn messages_all_turns_appear_when_windows_are_oversized() {
    let turns: Vec<_> = (0..4)
        .map(|i| msg_block(i as u32, "U", "2026-01-01", "1234567890"))
        .collect();
    let cfg = ChunkerConfig {
        preset: "messages".to_string(),
        target_tokens: Some(15),
        overlap_tokens: Some(0),
        window_turns: Some(4),
        stride_turns: Some(1),
    };
    let chunks = chunk_messages("resource-x", &turns, &cfg, &CharSizer).unwrap();
    let covered_seqs: std::collections::HashSet<u32> = chunks
        .iter()
        .flat_map(|c| c.window_block_seqs.iter().copied())
        .collect();
    for i in 0u32..4 {
        assert!(
            covered_seqs.contains(&i),
            "turn {i} must appear in at least one window; covered: {covered_seqs:?}"
        );
    }
}

#[test]
fn message_window_ids_reflect_final_membership_after_fixup() {
    let long_text = "word ".repeat(200);
    let blocks = vec![
        msg_block(0, "Alice", "2026-01-01T10:00:00Z", &long_text),
        msg_block(1, "Bob", "2026-01-01T10:01:00Z", &long_text),
    ];
    let cfg = ChunkerConfig {
        preset: "messages".to_string(),
        target_tokens: Some(50),
        overlap_tokens: Some(0),
        window_turns: Some(6),
        stride_turns: Some(3),
    };

    let run1 = chunk_messages("resource-fixup", &blocks, &cfg, &word_sizer()).unwrap();
    let run2 = chunk_messages("resource-fixup", &blocks, &cfg, &word_sizer()).unwrap();

    assert!(
        run1.len() > 2,
        "expected both long messages to split into multiple sub-chunks each, got {}",
        run1.len()
    );

    assert_eq!(run1.len(), run2.len(), "chunk count must be stable");
    for (c1, c2) in run1.iter().zip(run2.iter()) {
        assert_eq!(
            c1.id, c2.id,
            "chunk ids must be stable across identical runs"
        );
    }

    let unique_ids: std::collections::HashSet<&str> =
        run1.iter().map(|c| c.id.as_str()).collect();
    assert_eq!(
        unique_ids.len(),
        run1.len(),
        "all message-window chunk ids must be unique"
    );

    for (i, c) in run1.iter().enumerate() {
        assert_eq!(
            c.seq_in_block, i as u32,
            "seq_in_block must be the final, fixed-up index"
        );
        let expected =
            chunk_id("resource-fixup", c.block_seq, &c.text, c.seq_in_block);
        assert_eq!(
            c.id, expected,
            "chunk id must equal ids::chunk_id(resource_id, block_seq, text, seq_in_block) \
             computed from the chunk's FINAL block_seq/seq_in_block"
        );
    }
}

#[test]
fn table_small_single_chunk_unchanged() {
    let md = "| Name | Age |\n|---|---|\n| Alice | 30 |\n| Bob | 25 |";
    let doc_id = resource_id("file:///table.md", "abc");
    let cfg = ChunkerConfig::prose();
    let chunks = chunk_table(&doc_id, md, &cfg, &CharSizer, 0).unwrap();
    assert_eq!(chunks.len(), 1, "small table should fit in a single chunk");
    assert!(chunks[0].text.contains("| Name | Age |"));
    assert!(chunks[0].text.contains("|---|---|"));
    assert!(chunks[0].text.contains("| Alice | 30 |"));
    assert!(chunks[0].text.contains("| Bob | 25 |"));
}

#[test]
fn table_header_only_block_emits_one_chunk_with_header() {
    let md = "| Name | Age |\n|---|---|";
    let doc_id = resource_id("file:///table_header_only.md", "abc");
    let cfg = ChunkerConfig::prose();
    let chunks = chunk_table(&doc_id, md, &cfg, &CharSizer, 2).unwrap();
    assert_eq!(
        chunks.len(),
        1,
        "header-only table must produce exactly one chunk, got {}",
        chunks.len()
    );
    assert_eq!(chunks[0].text, "| Name | Age |\n|---|---|");
    assert_eq!(chunks[0].block_seq, 2);
    assert_eq!(chunks[0].seq_in_block, 0);
    assert!(!chunks[0].id.is_empty(), "chunk must have a valid id");
}

#[test]
fn table_multi_chunk_split_preserves_header() {
    let mut md = String::from("| A | B |\n|---|---|\n");
    let rows: Vec<String> = (0..10).map(|i| format!("| {i} | {i} |")).collect();
    md.push_str(&rows.join("\n"));
    let doc_id = resource_id("file:///table_big.md", "abc");
    let cfg = ChunkerConfig {
        preset: "prose".to_string(),
        target_tokens: Some(40),
        overlap_tokens: Some(0),
        window_turns: None,
        stride_turns: None,
    };
    let chunks = chunk_table(&doc_id, &md, &cfg, &CharSizer, 0).unwrap();
    assert!(
        chunks.len() >= 2,
        "10 rows under a tight target must split into multiple chunks, got {}",
        chunks.len()
    );
    for c in &chunks {
        assert!(
            c.text.contains("| A | B |") && c.text.contains("|---|---|"),
            "every chunk must re-emit the header/separator; got: {:?}",
            c.text
        );
    }
    let all_rows_text: String = chunks.iter().map(|c| c.text.as_str()).collect();
    for row in &rows {
        assert!(
            all_rows_text.contains(row.as_str()),
            "row {row:?} must appear in the chunked output"
        );
    }
}

#[test]
fn table_oversized_single_row_falls_back_to_code_chunker_split() {
    let huge_cell = "x".repeat(1000);
    let md = format!("| A |\n|---|\n| {huge_cell} |");
    let doc_id = resource_id("file:///table_oversized.md", "abc");
    let cfg = ChunkerConfig {
        preset: "prose".to_string(),
        target_tokens: Some(40),
        overlap_tokens: Some(0),
        window_turns: None,
        stride_turns: None,
    };
    let chunks = chunk_table(&doc_id, &md, &cfg, &CharSizer, 0).unwrap();
    assert!(
        chunks.len() > 1,
        "oversized single row must be split into multiple bounded chunks, got {}",
        chunks.len()
    );
    for c in &chunks {
        assert!(
            c.text.chars().count() <= 2 * cfg.resolved_target_tokens(),
            "fallback chunk must stay bounded: {} chars",
            c.text.chars().count()
        );
        assert_eq!(
            &md[c.span.start..c.span.end],
            c.text,
            "oversized-row fallback span must slice the block to exactly the chunk text"
        );
    }
}

#[test]
fn table_malformed_no_pipes_falls_back_to_code_chunker() {
    let md = "Name Age\nAlice 30\nBob 25\n";
    let doc_id = resource_id("file:///table_malformed.md", "abc");
    let cfg = ChunkerConfig::code();
    let table_chunks = chunk_table(&doc_id, md, &cfg, &CharSizer, 0).unwrap();
    let code_chunks = chunk_code(&doc_id, md, &cfg, 0).unwrap();
    assert_eq!(
        table_chunks, code_chunks,
        "malformed table text must fall back to exactly chunk_code's output"
    );
}

#[test]
fn table_malformed_missing_dash_separator_falls_back_to_code_chunker() {
    let md = "| A | B |\n| 1 | 2 |\n| 3 | 4 |";
    let doc_id = resource_id("file:///table_malformed2.md", "abc");
    let cfg = ChunkerConfig::code();
    let table_chunks = chunk_table(&doc_id, md, &cfg, &CharSizer, 0).unwrap();
    let code_chunks = chunk_code(&doc_id, md, &cfg, 0).unwrap();
    assert_eq!(
        table_chunks, code_chunks,
        "missing dash-separator row must fall back to exactly chunk_code's output"
    );
}

#[test]
fn table_token_target_boundary_packs_up_to_exact_target() {
    let md = "| A |\n|---|\n| 1 |\n| 2 |\n| 3 |";
    let doc_id = resource_id("file:///table_boundary.md", "abc");
    let cfg = ChunkerConfig {
        preset: "prose".to_string(),
        target_tokens: Some(23),
        overlap_tokens: Some(0),
        window_turns: None,
        stride_turns: None,
    };
    let chunks = chunk_table(&doc_id, md, &cfg, &CharSizer, 0).unwrap();
    assert_eq!(
        chunks.len(),
        2,
        "rows 1+2 should pack exactly at the boundary, row 3 starts a new chunk"
    );
    assert!(chunks[0].text.contains("| 1 |") && chunks[0].text.contains("| 2 |"));
    assert!(!chunks[0].text.contains("| 3 |"));
    assert!(chunks[1].text.contains("| 3 |"));
}

#[test]
fn table_chunk_ids_are_content_addressed_and_unique() {
    let mut md = String::from("| A | B |\n|---|---|\n");
    let rows: Vec<String> = (0..10).map(|i| format!("| {i} | {i} |")).collect();
    md.push_str(&rows.join("\n"));
    let doc_id = resource_id("file:///table_ids.md", "abc");
    let cfg = ChunkerConfig {
        preset: "prose".to_string(),
        target_tokens: Some(40),
        overlap_tokens: Some(0),
        window_turns: None,
        stride_turns: None,
    };
    let run1 = chunk_table(&doc_id, &md, &cfg, &CharSizer, 3).unwrap();
    let run2 = chunk_table(&doc_id, &md, &cfg, &CharSizer, 3).unwrap();
    assert_eq!(run1.len(), run2.len());
    for (c1, c2) in run1.iter().zip(run2.iter()) {
        assert_eq!(c1.id, c2.id, "table chunk ids must be deterministic");
    }
    let unique_ids: std::collections::HashSet<&str> =
        run1.iter().map(|c| c.id.as_str()).collect();
    assert_eq!(
        unique_ids.len(),
        run1.len(),
        "table chunk ids must be unique"
    );
    for c in &run1 {
        assert_eq!(
            c.block_seq, 3,
            "block_seq must be threaded through to table chunks"
        );
    }
}

#[test]
fn dispatch_code_preset_routes_text_block_through_code_chunker() {
    let block = Block {
        seq: 0,
        kind: BlockKind::Text,
        text: "fn hello() {\n    println!(\"hi\");\n}".to_string(),
        location: None,
    };
    let doc_id = resource_id("file:///test.rs", "abc");
    let cfg = ChunkerConfig::code();
    let chunks = chunk_blocks(&doc_id, &[block], &cfg, &CharSizer).unwrap();
    assert!(
        !chunks.is_empty(),
        "code preset + Text should produce chunks"
    );
    for c in &chunks {
        assert!(c.span.start <= c.span.end, "span start <= end");
    }
}

#[test]
fn messages_keep_every_turn_without_a_target() {
    let blocks = vec![
        msg_block(0, "Alice", "2026-01-01T10:00:00Z", "Hello there!"),
        msg_block(1, "Bob", "2026-01-01T10:01:00Z", "General greetings."),
    ];
    let cfg = ChunkerConfig { target_tokens: Some(0), ..ChunkerConfig::messages() };
    let chunks = chunk_messages("resource-1", &blocks, &cfg, &CharSizer).unwrap();
    assert!(chunks.iter().any(|c| c.window_block_seqs.contains(&0)));
    assert!(chunks.iter().any(|c| c.window_block_seqs.contains(&1)));
}
