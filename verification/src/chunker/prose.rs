//! The prose chunker: splits along the Markdown structure.

use super::code;
use super::config::ChunkerConfig;
use super::lines;
use super::output;
use super::output::ChunkOutput;
use super::sizers::ChunkSizer;
use crate::error::Error;
use crate::heading_index;
use crate::text;
use crate::types::Span;
use text_splitter::{ChunkConfig, MarkdownSplitter};
use vstd::prelude::*;

verus! {

/// A text goes to the code chunker where one of its runs without white space is longer
/// than this many targets.
pub const STRUCTURELESS_RUN_MULTIPLIER: usize = 8;

/// A text goes to the code chunker where one of its lines is longer than this many targets.
pub const OVERLONG_LINE_MULTIPLIER: usize = 64;

// ---------------------------------------------------------------------------
// The splitter
// ---------------------------------------------------------------------------
/// Hands a size metric to the splitter.
pub struct TsSizer<'a, S: ChunkSizer + ?Sized>(pub &'a S);

impl<'a, S: ChunkSizer + ?Sized> text_splitter::ChunkSizer for TsSizer<'a, S> {
    fn size(&self, chunk: &str) -> usize {
        self.0.size(chunk)
    }
}

/// The pieces, with their byte offsets, that the Markdown splitter cuts a text into: the
/// sizes that it aims at go from `desired` to `max`, and neighbours overlap by up to
/// `overlap`, all in the units of `measure`.
pub uninterp spec fn markdown_pieces(
    markdown: Seq<char>,
    measure: spec_fn(Seq<char>) -> nat,
    desired: nat,
    max: nat,
    overlap: nat,
) -> Seq<(nat, Seq<char>)>;

/// The views of pieces with their offsets.
pub open spec fn piece_views(v: Seq<(usize, String)>) -> Seq<(nat, Seq<char>)> {
    Seq::new(v.len(), |i: int| (v[i].0 as nat, v[i].1@))
}

/// Whether the piece is the slice `s[a..b]` with that slice's byte offset.
pub open spec fn piece_is(s: Seq<char>, p: (nat, Seq<char>), a: int, b: int) -> bool {
    0 <= a < b <= s.len() && p.1 == s.subrange(a, b) && p.0 == text::byte_offset(s, a)
}

/// Whether the piece is a non-empty slice of `s` with that slice's byte offset.
pub open spec fn is_piece(s: Seq<char>, p: (nat, Seq<char>)) -> bool {
    exists|a: int, b: int| piece_is(s, p, a, b)
}

/// Every piece is a non-empty slice of `s` with that slice's byte offset.
pub open spec fn pieces_are_slices(s: Seq<char>, ps: Seq<(nat, Seq<char>)>) -> bool {
    forall|i: int| 0 <= i < ps.len() ==> #[trigger] is_piece(s, ps[i])
}

/// The character at `k` lies in one of the pieces.
pub open spec fn in_a_piece(s: Seq<char>, ps: Seq<(nat, Seq<char>)>, k: int) -> bool {
    exists|i: int, a: int, b: int|
        0 <= i < ps.len() && a <= k < b && #[trigger] piece_is(s, ps[i], a, b)
}

/// Whether the pieces come in the order of the text and do not overlap.
pub open spec fn pieces_in_sequence(ps: Seq<(nat, Seq<char>)>) -> bool {
    forall|i: int, j: int|
        0 <= i < j < ps.len() ==> (#[trigger] ps[i]).0 + text::byte_len(ps[i].1) <= (
        #[trigger] ps[j]).0
}

/// Whether no piece is larger than `max`.
pub open spec fn pieces_within(
    ps: Seq<(nat, Seq<char>)>,
    measure: spec_fn(Seq<char>) -> nat,
    max: nat,
) -> bool {
    forall|i: int| 0 <= i < ps.len() ==> measure((#[trigger] ps[i]).1) <= max
}

/// Whether a metric gives no text more units than it has bytes.
pub open spec fn within_bytes(measure: spec_fn(Seq<char>) -> nat) -> bool {
    forall|t: Seq<char>| #[trigger] measure(t) <= text::byte_len(t)
}

/// Wraps `text_splitter::MarkdownSplitter::chunk_indices` with trimming on. The pieces
/// depend on the text, the metric and the three sizes alone. Each is a non-empty slice of
/// the text with its byte offset, and nothing but white space is left out between them.
/// Without an overlap they come in the order of the text, and none starts before the one in
/// front of it ends. None is larger than `max`, if the metric gives no text more units than bytes
/// and `max` has room for any single character. How far below `max` they stay is not stated.
#[verifier::external_body]
fn split_markdown<S: ChunkSizer + ?Sized>(
    markdown: &str,
    sizer: &S,
    desired: usize,
    max: usize,
    overlap: usize,
) -> (r: Vec<(usize, String)>)
    requires
        desired <= max,
        max > 0,
        overlap == 0 || overlap < desired,
    ensures
        piece_views(r@) == markdown_pieces(
            markdown@,
            sizer.measure(),
            desired as nat,
            max as nat,
            overlap as nat,
        ),
        pieces_are_slices(markdown@, piece_views(r@)),
        forall|k: int|
            0 <= k < markdown@.len() && !text::white_space(markdown@[k]) ==> #[trigger] in_a_piece(
                markdown@,
                piece_views(r@),
                k,
            ),
        overlap == 0 ==> pieces_in_sequence(piece_views(r@)),
        within_bytes(sizer.measure()) && max >= 4 ==> pieces_within(
            piece_views(r@),
            sizer.measure(),
            max as nat,
        ),
{
    let plain = ChunkConfig::new(desired..=max).with_sizer(TsSizer(sizer));
    let config = match ChunkConfig::new(desired..=max).with_sizer(TsSizer(sizer)).with_overlap(overlap) {
        Ok(c) => c,
        Err(_) => plain,
    };
    MarkdownSplitter::new(config)
        .chunk_indices(markdown)
        .map(|(offset, piece)| (offset, piece.to_string()))
        .collect()
}

// ---------------------------------------------------------------------------
// The chunks of a text
// ---------------------------------------------------------------------------
/// `s[a..b]` holds no white space.
pub open spec fn space_free(s: Seq<char>, a: int, b: int) -> bool {
    forall|i: int| a <= i < b ==> !text::white_space(#[trigger] s[i])
}

/// Whether a stretch of more than `n` characters of `s` holds no white space.
pub open spec fn has_run_over(s: Seq<char>, n: int) -> bool {
    exists|a: int| 0 <= a && a + n < s.len() && #[trigger] space_free(s, a, a + n + 1)
}

/// Whether a line of `s` has more than `n` characters.
pub open spec fn has_line_over(s: Seq<char>, n: int) -> bool {
    exists|i: int|
        0 <= i < lines::line_ranges(s, 0).len() && (#[trigger] lines::line_ranges(s, 0)[i]).1
            - lines::line_ranges(s, 0)[i].0 > n
}

/// Whether the text is too unstructured for the splitter.
pub open spec fn structureless(s: Seq<char>, target: nat) -> bool {
    has_run_over(s, 8 * target as int) || has_line_over(s, 64 * target as int)
}

/// The smallest size that the splitter aims at: three quarters of the target.
pub open spec fn desired_size(target: nat) -> nat {
    target * 3 / 4
}

/// The overlap that the splitter is asked for: none where it is not below the desired size.
pub open spec fn usable_overlap(target: nat, overlap: nat) -> nat {
    if overlap < desired_size(target) {
        overlap
    } else {
        0
    }
}

/// The chunks of the given pieces, each with the heading path at its start.
pub open spec fn piece_chunks(
    ps: Seq<(nat, Seq<char>)>,
    index: Seq<(nat, Seq<Seq<char>>)>,
    block_seq: u32,
) -> Seq<output::ChunkView> {
    Seq::new(
        ps.len(),
        |i: int|
            output::plain(
                ps[i].1,
                ps[i].0,
                ps[i].0 + text::byte_len(ps[i].1),
                heading_index::path_at(index, ps[i].0),
                block_seq,
            ),
    )
}

/// What the prose chunker makes of a text.
pub open spec fn prose_chunks(
    resource_id: Seq<char>,
    s: Seq<char>,
    target: nat,
    overlap: nat,
    measure: spec_fn(Seq<char>) -> nat,
    block_seq: u32,
) -> Seq<output::ChunkView> {
    if structureless(s, target) {
        code::code_chunks(resource_id, s, target, block_seq)
    } else if s.len() == 0 || target == 0 {
        Seq::empty()
    } else {
        output::numbered(
            resource_id,
            piece_chunks(
                markdown_pieces(
                    s,
                    measure,
                    desired_size(target),
                    target,
                    usable_overlap(target, overlap),
                ),
                heading_index::heading_index(s),
                block_seq,
            ),
        )
    }
}

// ---------------------------------------------------------------------------
// The chunker
// ---------------------------------------------------------------------------
/// Whether a stretch of more than `n` characters holds no white space.
fn run_over(cs: &[char], n: usize) -> (r: bool)
    ensures
        r == has_run_over(cs@, n as int),
{
    let mut run: usize = 0;
    let mut i: usize = 0;
    while i < cs.len()
        invariant
            run <= i <= cs.len(),
            run <= n,
            space_free(cs@, i - run, i as int),
            i - run > 0 ==> text::white_space(cs@[i - run - 1]),
            forall|a: int| 0 <= a && a + n < i ==> !#[trigger] space_free(cs@, a, a + n + 1),
        decreases cs.len() - i,
    {
        if text::is_white_space(cs[i]) {
            assert forall|a: int| 0 <= a && a + n < i + 1 implies !#[trigger] space_free(
                cs@,
                a,
                a + n + 1,
            ) by {
                if a + n == i {
                    assert(text::white_space(cs@[i as int]));
                }
            }
            run = 0;
        } else if run == n {
            assert(space_free(cs@, i - n, (i - n) + n + 1));
            return true;
        } else {
            assert forall|a: int| 0 <= a && a + n < i + 1 implies !#[trigger] space_free(
                cs@,
                a,
                a + n + 1,
            ) by {
                if a + n == i {
                    assert(a <= i - run - 1);
                    assert(text::white_space(cs@[i - run - 1]));
                }
            }
            run += 1;
        }
        i += 1;
    }
    false
}

/// Whether a line has more than `n` characters.
fn line_over(cs: &[char], n: usize) -> (r: bool)
    ensures
        r == has_line_over(cs@, n as int),
{
    let ls = lines::lines_of(cs);
    let mut i: usize = 0;
    while i < ls.len()
        invariant
            i <= ls.len(),
            lines::range_views(ls@) == lines::line_ranges(cs@, 0),
            forall|j: int| 0 <= j < ls.len() ==> (#[trigger] ls@[j]).0 <= ls@[j].1 <= cs.len(),
            forall|j: int| 0 <= j < i ==> (#[trigger] lines::line_ranges(cs@, 0)[j]).1
                - lines::line_ranges(cs@, 0)[j].0 <= n,
        decreases ls.len() - i,
    {
        assert(lines::range_views(ls@)[i as int] == (ls@[i as int].0 as int, ls@[i as int].1 as int));
        assert(ls@[i as int].0 <= ls@[i as int].1);
        if ls[i].1 - ls[i].0 > n {
            return true;
        }
        i += 1;
    }
    false
}

/// Whether the text is too unstructured for the splitter: minified data, or one giant line.
pub fn is_structureless(markdown: &str, target: usize) -> (r: bool)
    ensures
        r == structureless(markdown@, target as nat),
{
    let v = text::chars_of(markdown);
    let cs = v.as_slice();
    proof {
        lines_fit(cs@);
    }
    let run = match target.checked_mul(STRUCTURELESS_RUN_MULTIPLIER) {
        Some(n) => {
            assert(n == 8 * target);
            run_over(cs, n)
        },
        None => {
            assert(8 * target > usize::MAX);
            assert(cs@.len() == cs.len());
            assert(!has_run_over(cs@, 8 * target as int));
            false
        },
    };
    let line = match target.checked_mul(OVERLONG_LINE_MULTIPLIER) {
        Some(n) => {
            assert(n == 64 * target);
            line_over(cs, n)
        },
        None => {
            assert(64 * target > usize::MAX);
            assert(!has_line_over(cs@, 64 * target as int));
            false
        },
    };
    run || line
}

/// A line is no longer than its text.
proof fn lines_fit(s: Seq<char>)
    ensures
        forall|i: int|
            0 <= i < lines::line_ranges(s, 0).len() ==> (#[trigger] lines::line_ranges(s, 0)[i]).1
                - lines::line_ranges(s, 0)[i].0 <= s.len(),
{
    lemma_lines_fit(s, 0);
}

proof fn lemma_lines_fit(s: Seq<char>, from: int)
    requires
        0 <= from,
    ensures
        forall|i: int|
            0 <= i < lines::line_ranges(s, from).len() ==> (#[trigger] lines::line_ranges(s, from)[i]).1
                - lines::line_ranges(s, from)[i].0 <= s.len(),
    decreases s.len() - from,
{
    if from < s.len() {
        text::lemma_find_from(s, '\n', from);
        let i = text::find_from(s, '\n', from);
        if i < s.len() {
            lemma_lines_fit(s, i + 1);
            let rest = lines::line_ranges(s, i + 1);
            let all = lines::line_ranges(s, from);
            assert forall|j: int| 0 <= j < all.len() implies (#[trigger] all[j]).1 - all[j].0
                <= s.len() by {
                if j > 0 {
                    assert(all[j] == rest[j - 1]);
                }
            }
        }
    }
}

/// The chunks of the given pieces of a text with the given heading index.
pub fn chunks_from_pieces(
    resource_id: &str,
    pieces: &Vec<(usize, String)>,
    index: &Vec<(usize, Vec<String>)>,
    block_seq: u32,
) -> (r: Vec<ChunkOutput>)
    requires
        forall|i: int|
            0 <= i < pieces.len() ==> (#[trigger] pieces@[i]).0 + text::byte_len(pieces@[i].1@)
                <= usize::MAX,
    ensures
        output::chunk_views(r@) == output::numbered(
            resource_id@,
            piece_chunks(
                piece_views(pieces@),
                heading_index::index_view(index@),
                block_seq,
            ),
        ),
{
    let ghost all = piece_chunks(
        piece_views(pieces@),
        heading_index::index_view(index@),
        block_seq,
    );
    let mut chunks: Vec<ChunkOutput> = Vec::new();
    let mut i: usize = 0;
    assert(output::chunk_views(chunks@) =~= output::stamped(all).take(0));
    while i < pieces.len()
        invariant
            i <= pieces.len(),
            chunks.len() == i,
            all == piece_chunks(
                piece_views(pieces@),
                heading_index::index_view(index@),
                block_seq,
            ),
            output::chunk_views(chunks@) == output::stamped(all).take(i as int),
            forall|j: int|
                0 <= j < pieces.len() ==> (#[trigger] pieces@[j]).0 + text::byte_len(pieces@[j].1@)
                    <= usize::MAX,
        decreases pieces.len() - i,
    {
        let start: usize = pieces[i].0;
        assert(pieces@[i as int].0 + text::byte_len(pieces@[i as int].1@) <= usize::MAX);
        let end: usize = start + text::str_byte_len(pieces[i].1.as_str());
        let path = heading_index::heading_path_at(index.as_slice(), start);
        let c = ChunkOutput::placeholder(
            pieces[i].1.clone(),
            Span::new(start, end),
            path,
            block_seq,
            i as u32,
        );
        let ghost cv = c@;
        let ghost before = output::chunk_views(chunks@);
        chunks.push(c);
        assert(output::chunk_views(chunks@) =~= before.push(cv));
        assert(cv == output::stamped(all)[i as int]);
        assert(output::stamped(all).take(i + 1) =~= output::stamped(all).take(i as int).push(cv));
        i += 1;
    }
    assert(output::stamped(all).take(i as int) =~= output::stamped(all));
    output::finalize_ids(resource_id, &mut chunks);
    chunks
}

proof fn lemma_pieces_to_chunks(
    resource_id: Seq<char>,
    s: Seq<char>,
    ps: Seq<(nat, Seq<char>)>,
    index: Seq<(nat, Seq<Seq<char>>)>,
    block_seq: u32,
)
    requires
        pieces_are_slices(s, ps),
        forall|k: int|
            0 <= k < s.len() && !text::white_space(s[k]) ==> #[trigger] in_a_piece(s, ps, k),
    ensures
        output::exact_slices(
            s,
            output::numbered(resource_id, piece_chunks(ps, index, block_seq)),
        ),
        output::covers_text(
            s,
            output::numbered(resource_id, piece_chunks(ps, index, block_seq)),
        ),
{
    let cs = output::numbered(resource_id, piece_chunks(ps, index, block_seq));
    assert forall|i: int| 0 <= i < cs.len() implies #[trigger] output::is_some_slice(s, cs[i]) by {
        assert(is_piece(s, ps[i]));
        let (a, b) = choose|a: int, b: int| piece_is(s, ps[i], a, b);
        lemma_piece_slice(resource_id, s, ps, index, block_seq, i, a, b);
    }
    assert forall|k: int|
        0 <= k < s.len() && !text::white_space(s[k]) implies #[trigger] output::covered(s, cs, k) by {
        assert(in_a_piece(s, ps, k));
        let (i, a, b) = choose|i: int, a: int, b: int|
            0 <= i < ps.len() && a <= k < b && #[trigger] piece_is(s, ps[i], a, b);
        lemma_piece_slice(resource_id, s, ps, index, block_seq, i, a, b);
    }
}

proof fn lemma_piece_slice(
    resource_id: Seq<char>,
    s: Seq<char>,
    ps: Seq<(nat, Seq<char>)>,
    index: Seq<(nat, Seq<Seq<char>>)>,
    block_seq: u32,
    i: int,
    a: int,
    b: int,
)
    requires
        0 <= i < ps.len(),
        piece_is(s, ps[i], a, b),
    ensures
        output::is_slice(
            s,
            output::numbered(resource_id, piece_chunks(ps, index, block_seq))[i],
            a,
            b,
        ),
{
    text::lemma_byte_len_subrange(s, a, b);
}

/// The prose chunker. Texts without structure go to the code chunker.
pub fn chunk_prose<S: ChunkSizer + ?Sized>(
    resource_id: &str,
    markdown: &str,
    config: &ChunkerConfig,
    sizer: &S,
    block_seq: u32,
) -> (r: Result<Vec<ChunkOutput>, Error>)
    ensures
        r is Ok,
        output::chunk_views(r->Ok_0@) == prose_chunks(
            resource_id@,
            markdown@,
            config@.target(),
            config@.overlap(),
            sizer.measure(),
            block_seq,
        ),
        output::exact_slices(markdown@, output::chunk_views(r->Ok_0@)),
        output::covers_text(markdown@, output::chunk_views(r->Ok_0@)),
        // Without an overlap the chunks come one after the other.
        structureless(markdown@, config@.target()) || usable_overlap(
            config@.target(),
            config@.overlap(),
        ) == 0 ==> output::in_sequence(output::chunk_views(r->Ok_0@)),
        // No chunk is larger than the target: in characters where the text has no structure, or
        // else in the units of the metric.
        structureless(markdown@, config@.target()) && config@.target() > 0 ==> forall|i: int|
            0 <= i < r->Ok_0@.len() ==> (#[trigger] r->Ok_0@[i])@.text.len() <= config@.target(),
        !structureless(markdown@, config@.target()) && within_bytes(sizer.measure())
            && config@.target() >= 4 ==> forall|i: int|
            0 <= i < r->Ok_0@.len() ==> (sizer.measure())((#[trigger] r->Ok_0@[i])@.text)
                <= config@.target(),
{
    let target: usize = config.resolved_target_tokens();
    if is_structureless(markdown, target) {
        proof {
            code::code_chunks_are_lossless(resource_id@, markdown@, target as nat, block_seq);
            code::code_chunks_are_in_sequence(resource_id@, markdown@, target as nat, block_seq);
        }
        let r = code::chunk_code(resource_id, markdown, config, block_seq);
        proof {
            let cs = output::chunk_views(r->Ok_0@);
            if target > 0 {
                assert forall|i: int| 0 <= i < r->Ok_0@.len() implies (
                #[trigger] r->Ok_0@[i])@.text.len() <= target by {
                    code::code_chunks_respect_the_target(
                        resource_id@,
                        markdown@,
                        target as nat,
                        block_seq,
                        i,
                    );
                    assert(cs[i] == r->Ok_0@[i]@);
                }
            }
        }
        return r;
    }
    if markdown.is_empty() || target == 0 {
        let none: Vec<ChunkOutput> = Vec::new();
        assert(output::chunk_views(none@) =~= Seq::empty());
        assert forall|k: int| 0 <= k < markdown@.len() implies text::white_space(
            #[trigger] markdown@[k],
        ) by {
            assert(!space_free(markdown@, k, k + 8 * target as int + 1));
        }
        return Ok(none);
    }
    let overlap: usize = config.resolved_overlap_tokens();
    let index = heading_index::build_heading_index(markdown);
    let desired: usize = target / 4 * 3 + target % 4 * 3 / 4;
    assert(desired == desired_size(target as nat));
    let overlap: usize = if overlap < desired {
        overlap
    } else {
        0
    };
    let pieces = split_markdown(markdown, sizer, desired, target, overlap);
    let total: usize = text::str_byte_len(markdown);
    let ghost s = markdown@;
    let ghost ps = piece_views(pieces@);
    assert forall|i: int| 0 <= i < pieces.len() implies (#[trigger] pieces@[i]).0
        + text::byte_len(pieces@[i].1@) <= usize::MAX by {
        assert(ps[i] == (pieces@[i].0 as nat, pieces@[i].1@));
        assert(is_piece(s, ps[i]));
        let (a, b) = choose|a: int, b: int| piece_is(s, ps[i], a, b);
        text::lemma_byte_len_subrange(s, a, b);
    }
    let chunks = chunks_from_pieces(resource_id, &pieces, &index, block_seq);
    proof {
        lemma_pieces_to_chunks(
            resource_id@,
            s,
            ps,
            heading_index::index_view(index@),
            block_seq,
        );
        let cs = output::chunk_views(chunks@);
        assert forall|i: int| 0 <= i < chunks@.len() implies (#[trigger] chunks@[i])@.text
            == ps[i].1 && chunks@[i]@.start == ps[i].0 && chunks@[i]@.end == ps[i].0
            + text::byte_len(ps[i].1) by {
            assert(cs[i] == chunks@[i]@);
        }
        if overlap == 0 {
            assert forall|i: int, j: int| 0 <= i < j < cs.len() implies (#[trigger] cs[i]).end <= (
            #[trigger] cs[j]).start by {
                assert(cs[i] == chunks@[i]@ && cs[j] == chunks@[j]@);
                assert(ps[i].0 + text::byte_len(ps[i].1) <= ps[j].0);
            }
        }
    }
    Ok(chunks)
}

} // verus!
