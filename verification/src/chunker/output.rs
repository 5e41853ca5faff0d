//! Chunks, and the ids they get once their place is settled.

use crate::ids;
use crate::ids::ContentId;
use crate::text;
use crate::types::Span;
use vstd::prelude::*;

verus! {

/// A single chunk.
#[derive(Debug, Clone, PartialEq)]
pub struct ChunkOutput {
    /// Content-addressed id; see [`finalize_ids`].
    pub id: ContentId,
    /// Text of the chunk.
    pub text: String,
    /// Byte range in the chunked text.
    pub span: Span,
    /// Heading path at the chunk's start.
    pub heading_path: Vec<String>,
    /// Sequence number of the block that the chunk came from.
    pub block_seq: u32,
    /// Position of the chunk in its block.
    pub seq_in_block: u32,
    /// For message windows: the blocks in the window. Empty for other chunks.
    pub window_block_seqs: Vec<u32>,
    /// Name of the block's kind.
    pub block_kind: Option<String>,
}

/// A chunk as a mathematical value.
#[verifier::ext_equal]
pub struct ChunkView {
    pub id: Seq<char>,
    pub text: Seq<char>,
    pub start: nat,
    pub end: nat,
    pub heading_path: Seq<Seq<char>>,
    pub block_seq: u32,
    pub seq_in_block: u32,
    pub window_block_seqs: Seq<u32>,
    pub block_kind: Option<Seq<char>>,
}

impl View for ChunkOutput {
    type V = ChunkView;

    open spec fn view(&self) -> ChunkView {
        ChunkView {
            id: self.id@,
            text: self.text@,
            start: self.span.start as nat,
            end: self.span.end as nat,
            heading_path: text::views(self.heading_path@),
            block_seq: self.block_seq,
            seq_in_block: self.seq_in_block,
            window_block_seqs: self.window_block_seqs@,
            block_kind: text::opt_view(self.block_kind),
        }
    }
}

impl ChunkOutput {
    /// A chunk with the same content.
    pub fn copied(&self) -> (r: Self)
        ensures
            r@ == self@,
    {
        let mut seqs: Vec<u32> = Vec::new();
        let mut i: usize = 0;
        while i < self.window_block_seqs.len()
            invariant
                i <= self.window_block_seqs@.len(),
                seqs@ == self.window_block_seqs@.take(i as int),
            decreases self.window_block_seqs.len() - i,
        {
            seqs.push(self.window_block_seqs[i]);
            assert(self.window_block_seqs@.take(i + 1) =~= self.window_block_seqs@.take(
                i as int,
            ).push(self.window_block_seqs@[i as int]));
            i += 1;
        }
        assert(self.window_block_seqs@.take(i as int) =~= self.window_block_seqs@);
        ChunkOutput {
            id: self.id.clone(),
            text: self.text.clone(),
            span: self.span,
            heading_path: text::clone_strings(&self.heading_path),
            block_seq: self.block_seq,
            seq_in_block: self.seq_in_block,
            window_block_seqs: seqs,
            block_kind: text::clone_opt(&self.block_kind),
        }
    }
}

/// The views of a list of chunks.
pub open spec fn chunk_views(v: Seq<ChunkOutput>) -> Seq<ChunkView> {
    Seq::new(v.len(), |i: int| v[i]@)
}

/// A chunk of a single block, without id or position.
pub open spec fn plain(
    text: Seq<char>,
    start: nat,
    end: nat,
    heading_path: Seq<Seq<char>>,
    block_seq: u32,
) -> ChunkView {
    ChunkView {
        id: Seq::empty(),
        text,
        start,
        end,
        heading_path,
        block_seq,
        seq_in_block: 0,
        window_block_seqs: Seq::empty(),
        block_kind: None,
    }
}

/// The chunk at position `i`.
pub open spec fn placed(c: ChunkView, i: int) -> ChunkView {
    ChunkView { seq_in_block: i as u32, ..c }
}

/// The chunks, each with its position in the list.
pub open spec fn stamped(cs: Seq<ChunkView>) -> Seq<ChunkView> {
    Seq::new(cs.len(), |i: int| placed(cs[i], i))
}

/// The chunk with the id that its fields determine.
pub open spec fn identified(resource_id: Seq<char>, c: ChunkView) -> ChunkView {
    ChunkView {
        id: ids::chunk_id_of(resource_id, c.block_seq, c.text, c.seq_in_block),
        ..c
    }
}

/// The chunks, each with the id that its fields determine.
pub open spec fn finalized(resource_id: Seq<char>, cs: Seq<ChunkView>) -> Seq<ChunkView> {
    Seq::new(cs.len(), |i: int| identified(resource_id, cs[i]))
}

/// The chunks of one block, with their positions and ids.
pub open spec fn numbered(resource_id: Seq<char>, cs: Seq<ChunkView>) -> Seq<ChunkView> {
    finalized(resource_id, stamped(cs))
}

/// Whether the chunks come in the order of the text and do not overlap.
pub open spec fn in_sequence(cs: Seq<ChunkView>) -> bool {
    forall|i: int, j: int|
        0 <= i < j < cs.len() ==> (#[trigger] cs[i]).end <= (#[trigger] cs[j]).start
}

/// Whether `c` is the slice `s[a..b]`, by its text and by its span.
pub open spec fn is_slice(s: Seq<char>, c: ChunkView, a: int, b: int) -> bool {
    &&& 0 <= a < b <= s.len()
    &&& c.text == s.subrange(a, b)
    &&& c.start == text::byte_offset(s, a)
    &&& c.end == text::byte_offset(s, b)
}

/// Whether `c` is a non-empty slice of `s` whose span says which.
pub open spec fn is_some_slice(s: Seq<char>, c: ChunkView) -> bool {
    exists|a: int, b: int| is_slice(s, c, a, b)
}

/// Every chunk is a non-empty slice of `s`, and its span says which.
pub open spec fn exact_slices(s: Seq<char>, cs: Seq<ChunkView>) -> bool {
    forall|i: int| 0 <= i < cs.len() ==> #[trigger] is_some_slice(s, cs[i])
}

/// The character at `k` lies in one of the chunks.
pub open spec fn covered(s: Seq<char>, cs: Seq<ChunkView>, k: int) -> bool {
    exists|i: int, a: int, b: int|
        0 <= i < cs.len() && a <= k < b && #[trigger] is_slice(s, cs[i], a, b)
}

/// Every character of `s` that is not white space lies in one of the chunks.
pub open spec fn covers_text(s: Seq<char>, cs: Seq<ChunkView>) -> bool {
    forall|k: int| 0 <= k < s.len() && !text::white_space(s[k]) ==> #[trigger] covered(s, cs, k)
}

/// Finalizing twice is finalizing once.
pub proof fn finalizing_is_idempotent(resource_id: Seq<char>, cs: Seq<ChunkView>)
    ensures
        finalized(resource_id, finalized(resource_id, cs)) == finalized(resource_id, cs),
{
    assert(finalized(resource_id, finalized(resource_id, cs)) =~= finalized(resource_id, cs));
}

impl ChunkOutput {
    /// A chunk of a single block, with an empty id; [`finalize_ids`] gives it its real one.
    pub fn placeholder(
        text: String,
        span: Span,
        heading_path: Vec<String>,
        block_seq: u32,
        seq_in_block: u32,
    ) -> (r: Self)
        ensures
            r@ == (ChunkView {
                seq_in_block,
                ..plain(
                    text@,
                    span.start as nat,
                    span.end as nat,
                    text::views(heading_path@),
                    block_seq,
                )
            }),
    {
        let r = ChunkOutput {
            id: String::new(),
            text,
            span,
            heading_path,
            block_seq,
            seq_in_block,
            window_block_seqs: Vec::new(),
            block_kind: None,
        };
        assert(r@.window_block_seqs =~= Seq::<u32>::empty());
        r
    }
}

/// Gives every chunk its content-addressed id. Positions must be final; doing it again
/// changes nothing.
pub fn finalize_ids(resource_id: &str, chunks: &mut Vec<ChunkOutput>)
    ensures
        chunk_views(final(chunks)@) == finalized(resource_id@, chunk_views(old(chunks)@)),
{
    let ghost before = chunk_views(chunks@);
    let n: usize = chunks.len();
    let mut i: usize = 0;
    while i < n
        invariant
            i <= n == chunks.len(),
            before.len() == n,
            forall|j: int| 0 <= j < i ==> (#[trigger] chunks@[j])@ == identified(resource_id@, before[j]),
            forall|j: int| i <= j < n ==> (#[trigger] chunks@[j])@ == before[j],
        decreases n - i,
    {
        let id = ids::chunk_id(
            resource_id,
            chunks[i].block_seq,
            chunks[i].text.as_str(),
            chunks[i].seq_in_block,
        );
        chunks[i].id = id;
        i += 1;
    }
    assert(chunk_views(chunks@) =~= finalized(resource_id@, before));
}

/// Gives every chunk its position in the list.
pub fn stamp_positions(chunks: &mut Vec<ChunkOutput>)
    ensures
        chunk_views(final(chunks)@) == stamped(chunk_views(old(chunks)@)),
{
    let ghost before = chunk_views(chunks@);
    let n: usize = chunks.len();
    let mut i: usize = 0;
    while i < n
        invariant
            i <= n == chunks.len(),
            before.len() == n,
            forall|j: int| 0 <= j < i ==> (#[trigger] chunks@[j])@ == placed(before[j], j),
            forall|j: int| i <= j < n ==> (#[trigger] chunks@[j])@ == before[j],
        decreases n - i,
    {
        chunks[i].seq_in_block = i as u32;
        i += 1;
    }
    assert(chunk_views(chunks@) =~= stamped(before));
}

} // verus!
