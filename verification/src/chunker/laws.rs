//! What chunking promises of a document, in terms of its blocks and chunks.

use super::blocks;
use super::code;
use super::config;
use super::output;
use super::prose;
use super::table;
use crate::block;
use crate::heading_index;
use crate::outline;
use crate::text;
use vstd::prelude::*;

verus! {

// ---------------------------------------------------------------------------
// Where a chunk comes from
// ---------------------------------------------------------------------------
/// Whether a text holds no Markdown heading of its own.
pub open spec fn has_no_heading(s: Seq<char>) -> bool {
    forall|i: int|
        0 <= i < heading_index::markdown_events(s).len() ==> !(
        #[trigger] heading_index::markdown_events(s)[i] is Start)
}

/// Whether a block is taken apart by itself: it has text, and is no turn of a conversation.
pub open spec fn stands_alone(b: block::BlockView) -> bool {
    b.text.len() > 0 && !(b.kind is Message) && !(b.kind is Segment)
}

/// Whether a chunk is one of the block at position `k`: it bears the block's number and kind,
/// and the headings that enclose the block, unless the block's own text has headings in front
/// of the chunk.
pub open spec fn is_of_block(c: output::ChunkView, blocks: Seq<block::BlockView>, k: int) -> bool {
    let b = blocks[k];
    &&& 0 <= k < blocks.len()
    &&& stands_alone(b)
    &&& c.block_seq == b.seq
    &&& c.block_kind == Some(b.kind.name())
    &&& c.window_block_seqs.len() == 0
    &&& has_no_heading(b.text) || !(b.kind is Text || b.kind is Heading)
        ==> outline::is_enclosing_path(c.heading_path, blocks, b.seq)
    &&& outline::is_enclosing_path(c.heading_path, blocks, b.seq) || (c.heading_path.len() > 0
        && c.heading_path == heading_index::path_at(heading_index::heading_index(b.text), c.start))
}

proof fn lemma_no_heading(es: Seq<heading_index::EventView>)
    requires
        forall|i: int| 0 <= i < es.len() ==> !(#[trigger] es[i] is Start),
    ensures
        heading_index::after_events(es).reading is None,
        heading_index::after_events(es).index.len() == 0,
    decreases es.len(),
{
    if es.len() > 0 {
        assert(!(es[es.len() - 1] is Start));
        assert forall|i: int| 0 <= i < es.drop_last().len() implies !(
        #[trigger] es.drop_last()[i] is Start) by {
            assert(!(es[i] is Start));
        }
        lemma_no_heading(es.drop_last());
    }
}

proof fn lemma_plan_chunks(
    s: Seq<char>,
    header: Seq<char>,
    plan: Seq<table::TableItem>,
    target: nat,
    block_seq: u32,
    i: int,
)
    requires
        0 <= i < table::plan_chunks(s, header, plan, target, block_seq).len(),
    ensures
        ({
            let c = table::plan_chunks(s, header, plan, target, block_seq)[i];
            c.window_block_seqs.len() == 0 && c.heading_path.len() == 0
        }),
    decreases plan.len(),
{
    let front = table::plan_chunks(s, header, plan.drop_last(), target, block_seq);
    if i < front.len() {
        lemma_plan_chunks(s, header, plan.drop_last(), target, block_seq, i);
    }
}

/// What the chunker for a block's kind says of headings and windows.
proof fn lemma_kind_chunk(
    resource_id: Seq<char>,
    b: block::BlockView,
    path: Seq<Seq<char>>,
    config: config::ConfigView,
    measure: spec_fn(Seq<char>) -> nat,
    i: int,
)
    requires
        0 <= i < blocks::kind_chunks(resource_id, b, path, config, measure).len(),
    ensures
        ({
            let c = blocks::kind_chunks(resource_id, b, path, config, measure)[i];
            &&& c.window_block_seqs.len() == 0
            &&& has_no_heading(b.text) || !(b.kind is Text || b.kind is Heading)
                ==> c.heading_path.len() == 0 || c.heading_path == path
            &&& c.heading_path.len() == 0 || c.heading_path == path || c.heading_path
                == heading_index::path_at(heading_index::heading_index(b.text), c.start)
            &&& stands_alone(b) || b.text.len() == 0
        }),
{
    if has_no_heading(b.text) {
        lemma_no_heading(heading_index::markdown_events(b.text));
    }
    match b.kind {
        block::KindView::Table => {
            let s = b.text;
            if table::is_table(s) && table::data_rows(s).len() > 0 {
                lemma_plan_chunks(
                    s,
                    table::header_text(s),
                    table::table_plan(
                        s,
                        table::header_text(s),
                        table::data_rows(s),
                        0,
                        Seq::empty(),
                        config.target(),
                        measure,
                    ),
                    config.target(),
                    b.seq,
                    i,
                );
            }
        },
        _ => {},
    }
}

/// The block and the position in it that a chunk comes from.
#[verifier::rlimit(30)]
proof fn lemma_origin(
    resource_id: Seq<char>,
    bs: Seq<block::BlockView>,
    n: int,
    config: config::ConfigView,
    measure: spec_fn(Seq<char>) -> nat,
    i: int,
) -> (at: (int, int))
    requires
        0 <= n <= bs.len(),
        0 <= i < blocks::chunks_of_first(resource_id, bs, n, config, measure).len(),
    ensures
        0 <= at.0 < n,
        0 <= at.1 < blocks::chunks_of_block(resource_id, bs, bs[at.0], config, measure).len(),
        blocks::chunks_of_first(resource_id, bs, n, config, measure)[i]
            == blocks::chunks_of_block(resource_id, bs, bs[at.0], config, measure)[at.1],
    decreases n,
{
    let front = blocks::chunks_of_first(resource_id, bs, n - 1, config, measure);
    if i < front.len() {
        lemma_origin(resource_id, bs, n - 1, config, measure, i)
    } else {
        (n - 1, i - front.len())
    }
}

/// Where the chunks of a block stand among those of the first blocks.
proof fn lemma_place(
    resource_id: Seq<char>,
    bs: Seq<block::BlockView>,
    n: int,
    config: config::ConfigView,
    measure: spec_fn(Seq<char>) -> nat,
    k: int,
) -> (at: int)
    requires
        0 <= k < n <= bs.len(),
    ensures
        0 <= at,
        at + blocks::chunks_of_block(resource_id, bs, bs[k], config, measure).len()
            <= blocks::chunks_of_first(resource_id, bs, n, config, measure).len(),
        forall|j: int|
            0 <= j < blocks::chunks_of_block(resource_id, bs, bs[k], config, measure).len()
                ==> blocks::chunks_of_first(resource_id, bs, n, config, measure)[at + j]
                == #[trigger] blocks::chunks_of_block(resource_id, bs, bs[k], config, measure)[j],
    decreases n,
{
    let front = blocks::chunks_of_first(resource_id, bs, n - 1, config, measure);
    if k == n - 1 {
        front.len() as int
    } else {
        lemma_place(resource_id, bs, n - 1, config, measure, k)
    }
}

/// How many of a document's chunks are those of its conversation.
pub open spec fn turns_end(
    resource_id: Seq<char>,
    bs: Seq<block::BlockView>,
    config: config::ConfigView,
    measure: spec_fn(Seq<char>) -> nat,
) -> int {
    super::messages::message_chunks(resource_id, bs, config, measure).len() as int
}

/// A chunk with headings of its own keeps them, and one without gets those of its block; its text
/// and its place stay as they are.
pub proof fn chunks_without_headings_get_those_of_their_block(
    c: output::ChunkView,
    b: block::BlockView,
    path: Seq<Seq<char>>,
    i: int,
)
    ensures
        c.heading_path.len() == 0 ==> blocks::in_block(c, b, path, i).heading_path == path,
        c.heading_path.len() > 0 ==> blocks::in_block(c, b, path, i).heading_path
            == c.heading_path,
        blocks::in_block(c, b, path, i).text == c.text,
        blocks::in_block(c, b, path, i).start == c.start,
        blocks::in_block(c, b, path, i).end == c.end,
        blocks::in_block(c, b, path, i).block_seq == b.seq,
        blocks::in_block(c, b, path, i).seq_in_block == i as u32,
        blocks::in_block(c, b, path, i).window_block_seqs == c.window_block_seqs,
{
}

/// Every chunk behind those of the conversation is of a block: it bears the block's number and
/// kind, and is cited under the headings that enclose the block, outermost first, unless the
/// block's own text puts a heading in front of it. It has the id that all of that determines.
#[verifier::rlimit(30)]
pub proof fn chunks_are_cited_under_their_headings(
    resource_id: Seq<char>,
    bs: Seq<block::BlockView>,
    config: config::ConfigView,
    measure: spec_fn(Seq<char>) -> nat,
    i: int,
)
    requires
        turns_end(resource_id, bs, config, measure) <= i < blocks::document_chunks(
            resource_id,
            bs,
            config,
            measure,
        ).len(),
    ensures
        exists|k: int|
            #[trigger] is_of_block(
                blocks::document_chunks(resource_id, bs, config, measure)[i],
                bs,
                k,
            ),
{
    let from = turns_end(resource_id, bs, config, measure);
    let n = bs.len() as int;
    let (k, j) = lemma_origin(resource_id, bs, n, config, measure, i - from);
    let b = bs[k];
    let path = outline::block_path(bs, b.seq);
    lemma_kind_chunk(resource_id, b, path, config, measure, j);
    outline::block_paths_name_the_enclosing_headings(bs, b.seq);
    let c = blocks::document_chunks(resource_id, bs, config, measure)[i];
    let plain = blocks::kind_chunks(resource_id, b, path, config, measure)[j];
    assert(blocks::chunks_of_block(resource_id, bs, b, config, measure)[j] == blocks::in_block(
        plain,
        b,
        path,
        j,
    ));
    chunks_without_headings_get_those_of_their_block(plain, b, path, j);
    assert(c.block_seq == b.seq && c.block_kind == Some(b.kind.name()));
    assert(is_of_block(c, bs, k));
}

/// A chunk of a block without headings of its own is cited under at least one heading, if any
/// heading comes before the block; the last such heading is the innermost one.
pub proof fn text_below_a_heading_is_cited_with_it(
    resource_id: Seq<char>,
    bs: Seq<block::BlockView>,
    config: config::ConfigView,
    measure: spec_fn(Seq<char>) -> nat,
    i: int,
    k: int,
    h: int,
)
    requires
        turns_end(resource_id, bs, config, measure) <= i < blocks::document_chunks(
            resource_id,
            bs,
            config,
            measure,
        ).len(),
        is_of_block(blocks::document_chunks(resource_id, bs, config, measure)[i], bs, k),
        has_no_heading(bs[k].text),
        0 <= h < bs.len(),
        bs[h].kind is Heading,
        bs[h].seq <= bs[k].seq,
        forall|j: int|
            h < j < bs.len() && (#[trigger] bs[j]).seq <= bs[k].seq ==> !(bs[j].kind is Heading),
    ensures
        ({
            let path = blocks::document_chunks(resource_id, bs, config, measure)[i].heading_path;
            path.len() > 0 && path.last() == bs[h].text
        }),
{
    outline::places_behind_a_heading_have_a_path(
        blocks::document_chunks(resource_id, bs, config, measure)[i].heading_path,
        bs,
        bs[k].seq,
        h,
    );
}

// ---------------------------------------------------------------------------
// What becomes of a block
// ---------------------------------------------------------------------------
/// Whether the chunks from `at` on are those of `parts`, text by text and span by span, as
/// chunks of the block: numbered from zero on, of its kind, and with an id of their own.
pub open spec fn holds_parts(
    resource_id: Seq<char>,
    cs: Seq<output::ChunkView>,
    at: int,
    parts: Seq<output::ChunkView>,
    b: block::BlockView,
) -> bool {
    &&& 0 <= at
    &&& at + parts.len() <= cs.len()
    &&& forall|j: int|
        0 <= j < parts.len() ==> {
            let c = #[trigger] cs[at + j];
            &&& c.text == parts[j].text
            &&& c.start == parts[j].start
            &&& c.end == parts[j].end
            &&& c.block_seq == b.seq
            &&& c.block_kind == Some(b.kind.name())
            &&& c.seq_in_block == j as u32
            &&& c.id == crate::ids::chunk_id_of(resource_id, b.seq, c.text, j as u32)
        }
}

/// What the chunkers by themselves make of the text of a block: running text and headings are
/// prose, unless the preset is for code; listings are code; tables are tables; and what only
/// points to something is kept in one piece.
pub open spec fn parts_of(
    resource_id: Seq<char>,
    b: block::BlockView,
    config: config::ConfigView,
    measure: spec_fn(Seq<char>) -> nat,
    parts: Seq<output::ChunkView>,
) -> bool {
    let in_prose = (b.kind is Text || b.kind is Heading) && config.preset != "code"@;
    let in_code = b.kind is Code || ((b.kind is Text || b.kind is Heading) && config.preset
        == "code"@);
    &&& in_prose ==> parts == prose::prose_chunks(
        resource_id,
        b.text,
        config.target(),
        config.overlap(),
        measure,
        b.seq,
    )
    &&& in_code ==> parts == code::code_chunks(resource_id, b.text, config.target(), b.seq)
    &&& b.kind is Table ==> parts == table::table_chunks(
        resource_id,
        b.text,
        config.target(),
        measure,
        b.seq,
    )
    &&& !in_prose && !in_code && !(b.kind is Table) ==> parts.len() == 1 && parts[0].text == b.text
        && parts[0].start == 0 && parts[0].end == text::byte_len(b.text)
}

/// No block is lost: every block that stands alone is in the document's chunks, one after the
/// other, as the chunker for its kind takes it apart.
#[verifier::rlimit(30)]
pub proof fn every_block_has_its_chunks(
    resource_id: Seq<char>,
    bs: Seq<block::BlockView>,
    config: config::ConfigView,
    measure: spec_fn(Seq<char>) -> nat,
    k: int,
)
    requires
        0 <= k < bs.len(),
        stands_alone(bs[k]),
    ensures
        exists|at: int, parts: Seq<output::ChunkView>|
            at >= turns_end(resource_id, bs, config, measure) && parts_of(
                resource_id,
                bs[k],
                config,
                measure,
                parts,
            ) && #[trigger] holds_parts(
                resource_id,
                blocks::document_chunks(resource_id, bs, config, measure),
                at,
                parts,
                bs[k],
            ),
{
    let b = bs[k];
    let from = turns_end(resource_id, bs, config, measure);
    let at = from + lemma_place(resource_id, bs, bs.len() as int, config, measure, k);
    let path = outline::block_path(bs, b.seq);
    let parts = blocks::kind_chunks(resource_id, b, path, config, measure);
    let mine = blocks::chunks_of_block(resource_id, bs, b, config, measure);
    let all = blocks::document_chunks(resource_id, bs, config, measure);
    let first = blocks::chunks_of_first(resource_id, bs, bs.len() as int, config, measure);
    let turns = super::messages::message_chunks(resource_id, bs, config, measure);
    assert forall|j: int| 0 <= j < parts.len() implies {
        let c = #[trigger] all[at + j];
        &&& c.text == parts[j].text
        &&& c.start == parts[j].start
        &&& c.end == parts[j].end
        &&& c.block_seq == b.seq
        &&& c.block_kind == Some(b.kind.name())
        &&& c.seq_in_block == j as u32
        &&& c.id == crate::ids::chunk_id_of(resource_id, b.seq, c.text, j as u32)
    } by {
        assert(mine[j] == blocks::in_block(parts[j], b, path, j));
        assert(first[at - from + j] == mine[j]);
        assert((turns + first)[at + j] == mine[j]);
    }
    assert(parts_of(resource_id, b, config, measure, parts));
    assert(holds_parts(resource_id, all, at, parts, b));
}

/// The chunks of the conversation come first, as the chunker of conversations makes them.
pub proof fn conversations_come_first(
    resource_id: Seq<char>,
    bs: Seq<block::BlockView>,
    config: config::ConfigView,
    measure: spec_fn(Seq<char>) -> nat,
    i: int,
)
    requires
        0 <= i < turns_end(resource_id, bs, config, measure),
    ensures
        i < blocks::document_chunks(resource_id, bs, config, measure).len(),
        blocks::document_chunks(resource_id, bs, config, measure)[i]
            == super::messages::message_chunks(resource_id, bs, config, measure)[i],
{
    let ts = super::messages::turns_of(bs);
    let w = super::messages::windowing(config, measure);
    output::finalizing_is_idempotent(
        resource_id,
        output::stamped(
            super::messages::chunks_of_windows(
                resource_id,
                ts,
                super::messages::windows_from(ts, 0, w),
                config.overlap(),
                w,
            ),
        ),
    );
    let turns = super::messages::message_chunks(resource_id, bs, config, measure);
    assert(output::finalized(resource_id, turns)[i] == turns[i]);
}

/// Whether the character at `p` of a block's text is in one of the block's chunks, which is a
/// slice of that text.
pub open spec fn character_is_cited(
    cs: Seq<output::ChunkView>,
    b: block::BlockView,
    p: int,
) -> bool {
    exists|i: int, x: int, y: int|
        0 <= i < cs.len() && cs[i].block_seq == b.seq && x <= p < y && #[trigger] output::is_slice(
            b.text,
            cs[i],
            x,
            y,
        )
}

/// Whether every character of a block's text that is not white space is in one of the block's
/// chunks.
pub open spec fn is_cited(cs: Seq<output::ChunkView>, b: block::BlockView) -> bool {
    forall|p: int|
        0 <= p < b.text.len() && !text::white_space(b.text[p]) ==> #[trigger] character_is_cited(
            cs,
            b,
            p,
        )
}

/// Whether all that stands alone among the first `n` blocks is cited, but for tables, whose
/// chunks repeat the header and so are no slices.
pub open spec fn are_cited(cs: Seq<output::ChunkView>, bs: Seq<block::BlockView>, n: int) -> bool {
    forall|k: int|
        0 <= k < n && stands_alone(#[trigger] bs[k]) && !(bs[k].kind is Table) ==> is_cited(
            cs,
            bs[k],
        )
}

/// What is cited by chunks is cited by the same chunks among others.
pub(super) proof fn lemma_more_chunks(
    cs: Seq<output::ChunkView>,
    more: Seq<output::ChunkView>,
    bs: Seq<block::BlockView>,
    n: int,
)
    requires
        0 <= n <= bs.len(),
        are_cited(cs, bs, n),
    ensures
        are_cited(cs + more, bs, n),
{
    assert forall|k: int|
        0 <= k < n && stands_alone(#[trigger] bs[k]) && !(bs[k].kind is Table) implies is_cited(
        cs + more,
        bs[k],
    ) by {
        let b = bs[k];
        assert(is_cited(cs, b));
        assert forall|p: int|
            0 <= p < b.text.len() && !text::white_space(
                b.text[p],
            ) implies #[trigger] character_is_cited(cs + more, b, p) by {
            assert(character_is_cited(cs, b, p));
            let (i, x, y) = choose|i: int, x: int, y: int|
                0 <= i < cs.len() && cs[i].block_seq == b.seq && x <= p < y
                    && #[trigger] output::is_slice(b.text, cs[i], x, y);
            assert((cs + more)[i] == cs[i]);
            assert(output::is_slice(b.text, (cs + more)[i], x, y));
        }
    }
}

/// Slices that cover the text of a block cite it, once they bear its number.
pub(super) proof fn lemma_block_cited(
    cs: Seq<output::ChunkView>,
    parts: Seq<output::ChunkView>,
    b: block::BlockView,
    path: Seq<Seq<char>>,
)
    requires
        output::covers_text(b.text, parts),
    ensures
        is_cited(cs + Seq::new(parts.len(), |i: int| blocks::in_block(parts[i], b, path, i)), b),
{
    let mine = Seq::new(parts.len(), |i: int| blocks::in_block(parts[i], b, path, i));
    let all = cs + mine;
    assert forall|p: int|
        0 <= p < b.text.len() && !text::white_space(b.text[p]) implies #[trigger] character_is_cited(
        all,
        b,
        p,
    ) by {
        assert(output::covered(b.text, parts, p));
        let (i, x, y) = choose|i: int, x: int, y: int|
            0 <= i < parts.len() && x <= p < y && #[trigger] output::is_slice(
                b.text,
                parts[i],
                x,
                y,
            );
        assert(all[cs.len() + i] == mine[i]);
        assert(output::is_slice(b.text, all[cs.len() + i], x, y));
    }
}

/// Ids change nothing about what is cited.
pub(super) proof fn lemma_finalized_cited(
    resource_id: Seq<char>,
    cs: Seq<output::ChunkView>,
    bs: Seq<block::BlockView>,
    n: int,
)
    requires
        0 <= n <= bs.len(),
        are_cited(cs, bs, n),
    ensures
        are_cited(output::finalized(resource_id, cs), bs, n),
{
    let fs = output::finalized(resource_id, cs);
    assert forall|k: int|
        0 <= k < n && stands_alone(#[trigger] bs[k]) && !(bs[k].kind is Table) implies is_cited(
        fs,
        bs[k],
    ) by {
        let b = bs[k];
        assert(is_cited(cs, b));
        assert forall|p: int|
            0 <= p < b.text.len() && !text::white_space(
                b.text[p],
            ) implies #[trigger] character_is_cited(fs, b, p) by {
            assert(character_is_cited(cs, b, p));
            let (i, x, y) = choose|i: int, x: int, y: int|
                0 <= i < cs.len() && cs[i].block_seq == b.seq && x <= p < y
                    && #[trigger] output::is_slice(b.text, cs[i], x, y);
            assert(output::is_slice(b.text, fs[i], x, y));
        }
    }
}

/// Every kind of block has a name of its own.
pub proof fn kinds_have_their_own_names(a: block::KindView, b: block::KindView)
    requires
        a.name() == b.name(),
    ensures
        a is Heading == b is Heading,
        a is Text == b is Text,
        a is Code == b is Code,
        a is Table == b is Table,
        a is Message == b is Message,
        a is Segment == b is Segment,
        a is Reference == b is Reference,
        a is Attachment == b is Attachment,
        a is Frontmatter == b is Frontmatter,
        a is Image == b is Image,
{
    reveal_strlit("heading");
    reveal_strlit("text");
    reveal_strlit("code");
    reveal_strlit("table");
    reveal_strlit("message");
    reveal_strlit("segment");
    reveal_strlit("reference");
    reveal_strlit("attachment");
    reveal_strlit("frontmatter");
    reveal_strlit("image");
    let (x, y) = (a.name(), b.name());
    assert(x.len() == y.len());
    assert(x[0] == y[0]);
    assert(x[1] == y[1]);
}

} // verus!
