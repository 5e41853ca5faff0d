//! Chunking of a document's blocks, each by its kind.

use super::code;
use super::config::ChunkerConfig;
use super::laws;
use super::messages;
use super::output;
use super::output::ChunkOutput;
use super::prose;
use super::sizers::ChunkSizer;
use super::table;
use crate::block;
use crate::block::{Block, BlockKind};
use crate::error::Error;
use crate::outline;
use crate::text;
use crate::types::Span;
use vstd::prelude::*;

verus! {

/// What the chunker for a block's kind makes of the block.
pub open spec fn kind_chunks(
    resource_id: Seq<char>,
    b: block::BlockView,
    path: Seq<Seq<char>>,
    config: super::config::ConfigView,
    measure: spec_fn(Seq<char>) -> nat,
) -> Seq<output::ChunkView> {
    match b.kind {
        block::KindView::Heading { .. } | block::KindView::Text => if config.preset == "code"@ {
            code::code_chunks(resource_id, b.text, config.target(), b.seq)
        } else {
            prose::prose_chunks(
                resource_id,
                b.text,
                config.target(),
                config.overlap(),
                measure,
                b.seq,
            )
        },
        block::KindView::Code => code::code_chunks(resource_id, b.text, config.target(), b.seq),
        block::KindView::Table => table::table_chunks(
            resource_id,
            b.text,
            config.target(),
            measure,
            b.seq,
        ),
        block::KindView::Reference
        | block::KindView::Attachment
        | block::KindView::Frontmatter
        | block::KindView::Image => seq![
            output::plain(b.text, 0, text::byte_len(b.text), path, b.seq),
        ],
        block::KindView::Message { .. } | block::KindView::Segment { .. } => Seq::empty(),
    }
}

/// A chunk of block `b`, at position `i` of the block.
pub open spec fn in_block(
    c: output::ChunkView,
    b: block::BlockView,
    path: Seq<Seq<char>>,
    i: int,
) -> output::ChunkView {
    output::ChunkView {
        block_seq: b.seq,
        seq_in_block: i as u32,
        block_kind: Some(b.kind.name()),
        heading_path: if c.heading_path.len() == 0 {
            path
        } else {
            c.heading_path
        },
        ..c
    }
}

/// The chunks of one block that is no turn. An empty block has none.
pub open spec fn chunks_of_block(
    resource_id: Seq<char>,
    blocks: Seq<block::BlockView>,
    b: block::BlockView,
    config: super::config::ConfigView,
    measure: spec_fn(Seq<char>) -> nat,
) -> Seq<output::ChunkView> {
    let path = outline::block_path(blocks, b.seq);
    if b.text.len() == 0 {
        Seq::empty()
    } else {
        let cs = kind_chunks(resource_id, b, path, config, measure);
        Seq::new(cs.len(), |i: int| in_block(cs[i], b, path, i))
    }
}

/// The chunks of the first `n` blocks that are no turns.
pub open spec fn chunks_of_first(
    resource_id: Seq<char>,
    blocks: Seq<block::BlockView>,
    n: int,
    config: super::config::ConfigView,
    measure: spec_fn(Seq<char>) -> nat,
) -> Seq<output::ChunkView>
    decreases n,
{
    if n <= 0 {
        Seq::empty()
    } else {
        chunks_of_first(resource_id, blocks, n - 1, config, measure) + chunks_of_block(
            resource_id,
            blocks,
            blocks[n - 1],
            config,
            measure,
        )
    }
}

/// The chunks of a document: first those of its conversation, then those of its other
/// blocks in order.
pub open spec fn document_chunks(
    resource_id: Seq<char>,
    blocks: Seq<block::BlockView>,
    config: super::config::ConfigView,
    measure: spec_fn(Seq<char>) -> nat,
) -> Seq<output::ChunkView> {
    output::finalized(
        resource_id,
        messages::message_chunks(resource_id, blocks, config, measure) + chunks_of_first(
            resource_id,
            blocks,
            blocks.len() as int,
            config,
            measure,
        ),
    )
}

/// Every chunk of a document has the id that its document, block, text and position
/// determine.
pub proof fn document_chunks_are_identified(
    resource_id: Seq<char>,
    blocks: Seq<block::BlockView>,
    config: super::config::ConfigView,
    measure: spec_fn(Seq<char>) -> nat,
    i: int,
)
    requires
        0 <= i < document_chunks(resource_id, blocks, config, measure).len(),
    ensures
        ({
            let c = document_chunks(resource_id, blocks, config, measure)[i];
            c.id == crate::ids::chunk_id_of(resource_id, c.block_seq, c.text, c.seq_in_block)
        }),
{
}

/// Gives the chunks of a block their block, position, kind and heading path.
fn settle(chunks: &mut Vec<ChunkOutput>, b: &Block, path: &Vec<String>)
    ensures
        output::chunk_views(final(chunks)@) == Seq::new(
            old(chunks)@.len(),
            |i: int| in_block(old(chunks)@[i]@, b@, text::views(path@), i),
        ),
{
    let n: usize = chunks.len();
    let mut i: usize = 0;
    while i < n
        invariant
            i <= n == chunks.len() == old(chunks).len(),
            forall|j: int|
                0 <= j < i ==> (#[trigger] chunks@[j])@ == in_block(
                    old(chunks)@[j]@,
                    b@,
                    text::views(path@),
                    j,
                ),
            forall|j: int| i <= j < n ==> (#[trigger] chunks@[j])@ == old(chunks)@[j]@,
        decreases n - i,
    {
        assert(chunks@[i as int]@ == old(chunks)@[i as int]@);
        assert(text::views(chunks@[i as int].heading_path@).len() == chunks@[i as int].heading_path.len());
        chunks[i].block_seq = b.seq;
        chunks[i].seq_in_block = i as u32;
        chunks[i].block_kind = Some(b.kind.kind_str().to_owned());
        if chunks[i].heading_path.len() == 0 {
            chunks[i].heading_path = text::clone_strings(path);
        }
        i += 1;
    }
    assert(output::chunk_views(chunks@) =~= Seq::new(
        old(chunks)@.len(),
        |i: int| in_block(old(chunks)@[i]@, b@, text::views(path@), i),
    ));
}

/// Chunks one block that is no turn, by its kind.
fn chunk_block<S: ChunkSizer + ?Sized>(
    resource_id: &str,
    b: &Block,
    path: &Vec<String>,
    config: &ChunkerConfig,
    sizer: &S,
) -> (r: Result<Vec<ChunkOutput>, Error>)
    ensures
        r is Ok,
        output::chunk_views(r->Ok_0@) == kind_chunks(
            resource_id@,
            b@,
            text::views(path@),
            config@,
            sizer.measure(),
        ),
        laws::stands_alone(b@) && !(b@.kind is Table) ==> output::covers_text(
            b@.text,
            output::chunk_views(r->Ok_0@),
        ),
{
    proof {
        code::code_chunks_are_lossless(resource_id@, b@.text, config@.target(), b@.seq);
    }
    match &b.kind {
        BlockKind::Heading { .. } | BlockKind::Text => {
            if text::str_eq(config.preset.as_str(), "code") {
                code::chunk_code(resource_id, b.text.as_str(), config, b.seq)
            } else {
                prose::chunk_prose(resource_id, b.text.as_str(), config, sizer, b.seq)
            }
        },
        BlockKind::Code { .. } => code::chunk_code(resource_id, b.text.as_str(), config, b.seq),
        BlockKind::Table { .. } => table::chunk_table(
            resource_id,
            b.text.as_str(),
            config,
            sizer,
            b.seq,
        ),
        BlockKind::Reference { .. }
        | BlockKind::Attachment { .. }
        | BlockKind::Frontmatter { .. }
        | BlockKind::Image { .. } => {
            let n: usize = text::str_byte_len(b.text.as_str());
            let mut out: Vec<ChunkOutput> = Vec::new();
            let c = ChunkOutput::placeholder(
                b.text.clone(),
                Span::new(0, n),
                text::clone_strings(path),
                b.seq,
                0,
            );
            let ghost cv = c@;
            out.push(c);
            assert(output::chunk_views(out@) =~= seq![cv]);
            proof {
                let s = b@.text;
                assert(s.subrange(0, s.len() as int) =~= s);
                assert(s.take(s.len() as int) =~= s);
                assert(s.take(0) =~= Seq::empty());
                assert(text::byte_offset(s, 0) == 0);
                assert(output::chunk_views(out@)[0] == cv);
                if s.len() > 0 {
                    assert(output::is_slice(s, output::chunk_views(out@)[0], 0, s.len() as int));
                }
            }
            Ok(out)
        },
        BlockKind::Message { .. } | BlockKind::Segment { .. } => {
            let out: Vec<ChunkOutput> = Vec::new();
            assert(output::chunk_views(out@) =~= Seq::empty());
            Ok(out)
        },
    }
}

proof fn lemma_settled(cs: Seq<ChunkOutput>, b: block::BlockView, path: Seq<Seq<char>>)
    ensures
        Seq::new(cs.len(), |i: int| in_block(cs[i]@, b, path, i)) == Seq::new(
            output::chunk_views(cs).len(),
            |i: int| in_block(output::chunk_views(cs)[i], b, path, i),
        ),
{
    assert(Seq::new(cs.len(), |i: int| in_block(cs[i]@, b, path, i)) =~= Seq::new(
        output::chunk_views(cs).len(),
        |i: int| in_block(output::chunk_views(cs)[i], b, path, i),
    ));
}

/// Chunks the blocks of a document. Messages and segments are windowed together; every
/// other block is chunked by its kind. Blocks without text are skipped.
pub fn chunk_blocks<S: ChunkSizer + ?Sized>(
    resource_id: &str,
    blocks: &[Block],
    config: &ChunkerConfig,
    sizer: &S,
) -> (r: Result<Vec<ChunkOutput>, Error>)
    ensures
        r is Ok,
        output::chunk_views(r->Ok_0@) == document_chunks(
            resource_id@,
            block::block_views(blocks@),
            config@,
            sizer.measure(),
        ),
        // Nothing but white space is left out of a block that is no turn and no table.
        laws::are_cited(
            output::chunk_views(r->Ok_0@),
            block::block_views(blocks@),
            blocks@.len() as int,
        ),
{
    let ghost bs = block::block_views(blocks@);
    let ghost m = sizer.measure();
    let mut out = match messages::chunk_messages(resource_id, blocks, config, sizer) {
        Ok(v) => v,
        Err(_) => Vec::new(),
    };
    let ghost head = output::chunk_views(out@);
    let mut i: usize = 0;
    assert(head + chunks_of_first(resource_id@, bs, 0, config@, m) =~= head);
    while i < blocks.len()
        invariant
            i <= blocks.len(),
            bs == block::block_views(blocks@),
            m == sizer.measure(),
            output::chunk_views(out@) == head + chunks_of_first(
                resource_id@,
                bs,
                i as int,
                config@,
                m,
            ),
            laws::are_cited(output::chunk_views(out@), bs, i as int),
        decreases blocks.len() - i,
    {
        let b = &blocks[i];
        let ghost before = output::chunk_views(out@);
        let ghost more = chunks_of_block(resource_id@, bs, b@, config@, m);
        if !b.text.as_str().is_empty() {
            let path = outline::heading_path_from_blocks(blocks, b.seq);
            let mut sub = match chunk_block(resource_id, b, &path, config, sizer) {
                Ok(v) => v,
                Err(_) => Vec::new(),
            };
            let ghost parts = output::chunk_views(sub@);
            proof {
                lemma_settled(sub@, b@, text::views(path@));
            }
            settle(&mut sub, b, &path);
            let ghost settled = output::chunk_views(sub@);
            let ghost sub_seq = sub@;
            let ghost out_seq = out@;
            out.append(&mut sub);
            assert(out@ == out_seq + sub_seq);
            assert(output::chunk_views(out@) =~= before + settled);
            assert(settled == more);
            proof {
                laws::lemma_more_chunks(before, settled, bs, i as int);
                if laws::stands_alone(b@) && !(b@.kind is Table) {
                    laws::lemma_block_cited(before, parts, b@, text::views(path@));
                }
            }
        } else {
            assert(before + more =~= before);
        }
        assert(bs[i as int] == b@);
        assert(head + (chunks_of_first(resource_id@, bs, i as int, config@, m) + more) =~= (head
            + chunks_of_first(resource_id@, bs, i as int, config@, m)) + more);
        i += 1;
    }
    proof {
        laws::lemma_finalized_cited(
            resource_id@,
            output::chunk_views(out@),
            bs,
            blocks@.len() as int,
        );
    }
    output::finalize_ids(resource_id, &mut out);
    Ok(out)
}

} // verus!
