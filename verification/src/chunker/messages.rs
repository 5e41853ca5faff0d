//! The messages chunker: sliding windows over the turns of a conversation.

use super::config::ChunkerConfig;
use super::message_laws;
use super::output;
use super::output::ChunkOutput;
use super::prose;
use super::sizers::ChunkSizer;
use crate::block;
use crate::block::{Block, BlockKind};
use crate::error::Error;
use crate::text;
use crate::types::Span;
use vstd::prelude::*;

verus! {

// ---------------------------------------------------------------------------
// Turns
// ---------------------------------------------------------------------------
/// `[sender] (timestamp): `, or `[sender]: ` without a timestamp.
pub open spec fn message_prefix(sender: Seq<char>, timestamp: Option<Seq<char>>) -> Seq<char> {
    match timestamp {
        Some(ts) => "["@ + sender + "] ("@ + ts + "): "@,
        None => "["@ + sender + "]: "@,
    }
}

/// `[speaker] (start-end): `, or `(start-end): ` without a speaker.
pub open spec fn segment_prefix(speaker: Option<Seq<char>>, start_ms: u64, end_ms: u64) -> Seq<
    char,
> {
    let times = "("@ + text::decimal(start_ms as nat) + "-"@ + text::decimal(end_ms as nat)
        + "): "@;
    match speaker {
        Some(sp) => "["@ + sp + "] "@ + times,
        None => times,
    }
}

/// What is put in front of a turn's text.
pub open spec fn turn_prefix(kind: block::KindView) -> Seq<char> {
    match kind {
        block::KindView::Message { sender, timestamp } => message_prefix(sender, timestamp),
        block::KindView::Segment { speaker, start_ms, end_ms } => segment_prefix(
            speaker,
            start_ms,
            end_ms,
        ),
        _ => Seq::empty(),
    }
}

/// The text that a turn contributes to a window.
pub open spec fn turn_text(b: block::BlockView) -> Seq<char> {
    turn_prefix(b.kind) + b.text
}

/// The turns among the blocks: the messages and segments that are not empty.
pub open spec fn turns_of(blocks: Seq<block::BlockView>) -> Seq<block::BlockView>
    decreases blocks.len(),
{
    if blocks.len() == 0 {
        Seq::empty()
    } else if blocks.last().is_turn() {
        turns_of(blocks.drop_last()).push(blocks.last())
    } else {
        turns_of(blocks.drop_last())
    }
}

/// The texts of the turns.
pub open spec fn turn_texts(turns: Seq<block::BlockView>) -> Seq<Seq<char>> {
    Seq::new(turns.len(), |i: int| turn_text(turns[i]))
}

/// The label of a message: `[sender] (timestamp): `, or `[sender]: ` without a timestamp.
pub fn format_message_prefix(sender: &str, timestamp: Option<&str>) -> (r: String)
    ensures
        r@ == message_prefix(sender@, text::opt_str_view(timestamp)),
{
    match timestamp {
        Some(ts) => text::concat5("[", sender, "] (", ts, "): "),
        None => text::concat3("[", sender, "]: "),
    }
}

/// The label of a segment: `[speaker] (start-end): `, or `(start-end): ` without a speaker.
pub fn format_segment_prefix(speaker: Option<&str>, start_ms: u64, end_ms: u64) -> (r: String)
    ensures
        r@ == segment_prefix(text::opt_str_view(speaker), start_ms, end_ms),
{
    let a = text::decimal_string(start_ms);
    let b = text::decimal_string(end_ms);
    let times = text::concat5("(", a.as_str(), "-", b.as_str(), "): ");
    match speaker {
        Some(sp) => {
            let head = text::concat3("[", sp, "] ");
            text::concat(head.as_str(), times.as_str())
        },
        None => times,
    }
}

/// The label of a turn.
fn label_of(b: &Block) -> (r: String)
    ensures
        r@ == turn_prefix(b@.kind),
{
    match &b.kind {
        BlockKind::Message { sender, timestamp, .. } => format_message_prefix(
            sender.as_str(),
            text::borrow_opt(timestamp),
        ),
        BlockKind::Segment { speaker, start_ms, end_ms } => format_segment_prefix(
            text::borrow_opt(speaker),
            *start_ms,
            *end_ms,
        ),
        _ => String::new(),
    }
}

// ---------------------------------------------------------------------------
// Windows
// ---------------------------------------------------------------------------
/// How turns are gathered: the sizes of the windows and the budget of one.
pub struct Windowing {
    pub window: nat,
    pub stride: nat,
    pub max: nat,
    pub measure: spec_fn(Seq<char>) -> nat,
}

/// The windowing that a configuration asks for. A stride is at least one turn.
pub open spec fn windowing(
    config: super::config::ConfigView,
    measure: spec_fn(Seq<char>) -> nat,
) -> Windowing {
    Windowing {
        window: config.window(),
        stride: if config.stride() == 0 {
            1
        } else {
            config.stride()
        },
        max: config.target(),
        measure,
    }
}

/// The text of the turns `a..b`.
pub open spec fn window_text(turns: Seq<block::BlockView>, a: int, b: int) -> Seq<char> {
    text::joined(turn_texts(turns).subrange(a, b), "\n\n"@)
}

/// End of the window at `a`, before it is fitted to the budget.
pub open spec fn full_end(n: int, a: int, w: Windowing) -> int {
    if a + w.window <= n {
        a + w.window
    } else {
        n
    }
}

/// The largest end of at most `e` for which the window at `a` is within the budget, or the
/// end of its first turn.
pub open spec fn fitted_end(turns: Seq<block::BlockView>, a: int, e: int, w: Windowing) -> int
    decreases e - a,
{
    if e <= a + 1 || (w.measure)(window_text(turns, a, e)) <= w.max {
        e
    } else {
        fitted_end(turns, a, e - 1, w)
    }
}

/// End of the window at `a`.
pub open spec fn end_of_window(turns: Seq<block::BlockView>, a: int, w: Windowing) -> int {
    fitted_end(turns, a, full_end(turns.len() as int, a, w), w)
}

/// Start of the window after the one at `a`: a stride further, or where a window that was
/// cut short ends.
pub open spec fn next_start(turns: Seq<block::BlockView>, a: int, w: Windowing) -> int {
    let e = end_of_window(turns, a, w);
    if e < full_end(turns.len() as int, a, w) {
        e
    } else {
        a + w.stride
    }
}

/// The windows from turn `a` on.
pub open spec fn windows_from(turns: Seq<block::BlockView>, a: int, w: Windowing) -> Seq<(int, int)>
    decreases turns.len() - a,
{
    if a < 0 || a >= turns.len() {
        Seq::empty()
    } else if next_start(turns, a, w) <= a || next_start(turns, a, w) >= turns.len() {
        seq![(a, end_of_window(turns, a, w))]
    } else {
        seq![(a, end_of_window(turns, a, w))] + windows_from(turns, next_start(turns, a, w), w)
    }
}

/// The sequence numbers of blocks.
pub open spec fn seqs_of(turns: Seq<block::BlockView>) -> Seq<u32> {
    Seq::new(turns.len(), |i: int| turns[i].seq)
}

/// The chunk of a window of turns. Its span is not meaningful.
pub open spec fn window_chunk(turns: Seq<block::BlockView>, a: int, b: int) -> output::ChunkView {
    output::ChunkView {
        id: Seq::empty(),
        text: window_text(turns, a, b),
        start: 0,
        end: 0,
        heading_path: Seq::empty(),
        block_seq: turns[a].seq,
        seq_in_block: 0,
        window_block_seqs: seqs_of(turns.subrange(a, b)),
        block_kind: Some(turns[a].kind.name()),
    }
}

/// A prose chunk of a turn's text, labelled as the turn is.
pub open spec fn labelled(turn: block::BlockView, c: output::ChunkView) -> output::ChunkView {
    output::ChunkView {
        id: Seq::empty(),
        text: turn_prefix(turn.kind) + c.text,
        start: c.start,
        end: c.end,
        heading_path: Seq::empty(),
        block_seq: turn.seq,
        seq_in_block: 0,
        window_block_seqs: seq![turn.seq],
        block_kind: Some(turn.kind.name()),
    }
}

pub open spec fn all_labelled(turn: block::BlockView, cs: Seq<output::ChunkView>) -> Seq<
    output::ChunkView,
> {
    Seq::new(cs.len(), |i: int| labelled(turn, cs[i]))
}

/// Whether the window holds a single turn that is over the budget.
pub open spec fn is_oversized(turns: Seq<block::BlockView>, a: int, b: int, w: Windowing) -> bool {
    b == a + 1 && (w.measure)(turn_text(turns[a])) > w.max
}

/// The chunks of one window: the window as a whole, or the prose chunks of a turn that is
/// too long for one, each with the turn's label.
pub open spec fn chunks_of_window(
    resource_id: Seq<char>,
    turns: Seq<block::BlockView>,
    r: (int, int),
    overlap: nat,
    w: Windowing,
) -> Seq<output::ChunkView> {
    if is_oversized(turns, r.0, r.1, w) {
        all_labelled(
            turns[r.0],
            prose::prose_chunks(
                resource_id,
                turns[r.0].text,
                w.max,
                overlap,
                w.measure,
                turns[r.0].seq,
            ),
        )
    } else {
        seq![window_chunk(turns, r.0, r.1)]
    }
}

/// The chunks of the windows, in order.
pub open spec fn chunks_of_windows(
    resource_id: Seq<char>,
    turns: Seq<block::BlockView>,
    rs: Seq<(int, int)>,
    overlap: nat,
    w: Windowing,
) -> Seq<output::ChunkView>
    decreases rs.len(),
{
    if rs.len() == 0 {
        Seq::empty()
    } else {
        chunks_of_windows(resource_id, turns, rs.drop_last(), overlap, w) + chunks_of_window(
            resource_id,
            turns,
            rs.last(),
            overlap,
            w,
        )
    }
}

/// What the messages chunker makes of blocks.
pub open spec fn message_chunks(
    resource_id: Seq<char>,
    blocks: Seq<block::BlockView>,
    config: super::config::ConfigView,
    measure: spec_fn(Seq<char>) -> nat,
) -> Seq<output::ChunkView> {
    let turns = turns_of(blocks);
    let w = windowing(config, measure);
    output::numbered(
        resource_id,
        chunks_of_windows(resource_id, turns, windows_from(turns, 0, w), config.overlap(), w),
    )
}

// ---------------------------------------------------------------------------
// Laws
// ---------------------------------------------------------------------------
proof fn lemma_fitted_end(turns: Seq<block::BlockView>, a: int, e: int, w: Windowing)
    ensures
        fitted_end(turns, a, e, w) <= e,
        e > a ==> fitted_end(turns, a, e, w) > a,
        fitted_end(turns, a, e, w) < e ==> e > a + 1,
        fitted_end(turns, a, e, w) > a + 1 ==> (w.measure)(
            window_text(turns, a, fitted_end(turns, a, e, w)),
        ) <= w.max,
    decreases e - a,
{
    if e > a + 1 && (w.measure)(window_text(turns, a, e)) > w.max {
        lemma_fitted_end(turns, a, e - 1, w);
    }
}

proof fn lemma_next_start(turns: Seq<block::BlockView>, a: int, w: Windowing)
    requires
        0 <= a < turns.len(),
        w.stride > 0,
    ensures
        next_start(turns, a, w) > a,
        end_of_window(turns, a, w) <= turns.len(),
        end_of_window(turns, a, w) >= a,
        end_of_window(turns, a, w) < full_end(turns.len() as int, a, w) ==> end_of_window(
            turns,
            a,
            w,
        ) > a,
{
    lemma_fitted_end(turns, a, full_end(turns.len() as int, a, w), w);
}

/// Every turn is in one of the windows, as long as a window holds at least one turn and
/// windows begin no further apart than they reach.
pub proof fn every_turn_is_in_a_window(
    turns: Seq<block::BlockView>,
    a: int,
    w: Windowing,
    k: int,
)
    requires
        0 <= a <= k < turns.len(),
        0 < w.stride <= w.window,
    ensures
        exists|i: int|
            0 <= i < windows_from(turns, a, w).len() && (#[trigger] windows_from(turns, a, w)[i]).0
                <= k < windows_from(turns, a, w)[i].1,
    decreases turns.len() - a,
{
    lemma_next_start(turns, a, w);
    lemma_fitted_end(turns, a, full_end(turns.len() as int, a, w), w);
    let ws = windows_from(turns, a, w);
    let e = end_of_window(turns, a, w);
    let next = next_start(turns, a, w);
    if k < e {
        assert(ws[0] == (a, e));
    } else {
        assert(next <= e);
        every_turn_is_in_a_window(turns, next, w, k);
        let rest = windows_from(turns, next, w);
        let i = choose|i: int|
            0 <= i < rest.len() && (#[trigger] rest[i]).0 <= k < rest[i].1;
        assert(ws[i + 1] == rest[i]);
    }
}

/// Whether a turn says anything.
pub open spec fn has_words(turn: block::BlockView) -> bool {
    exists|k: int| 0 <= k < turn.text.len() && !text::white_space(#[trigger] turn.text[k])
}

/// Whether a block is in the window of one of the chunks.
pub open spec fn is_windowed(cs: Seq<output::ChunkView>, seq: u32) -> bool {
    exists|i: int| 0 <= i < cs.len() && (#[trigger] cs[i]).window_block_seqs.contains(seq)
}

/// Whether a turn is bound to be in a chunk: it fits the budget, or says anything.
pub open spec fn must_be_kept(turn: block::BlockView, w: Windowing) -> bool {
    (w.measure)(turn_text(turn)) <= w.max || has_words(turn)
}

/// Whether the window of a turn that must be kept has a chunk.
pub open spec fn window_is_kept(
    resource_id: Seq<char>,
    turns: Seq<block::BlockView>,
    r: (int, int),
    overlap: nat,
    w: Windowing,
) -> bool {
    is_oversized(turns, r.0, r.1, w) && has_words(turns[r.0]) ==> chunks_of_window(
        resource_id,
        turns,
        r,
        overlap,
        w,
    ).len() > 0
}

/// Whether a turn that is too long for a chunk is split without loss.
pub open spec fn window_is_split(
    resource_id: Seq<char>,
    turns: Seq<block::BlockView>,
    r: (int, int),
    overlap: nat,
    w: Windowing,
) -> bool {
    is_oversized(turns, r.0, r.1, w) ==> output::covers_text(
        turns[r.0].text,
        prose::prose_chunks(
            resource_id,
            turns[r.0].text,
            w.max,
            overlap,
            w.measure,
            turns[r.0].seq,
        ),
    )
}

/// A turn in one of the windows is in the window of a chunk.
proof fn lemma_windowed(
    resource_id: Seq<char>,
    turns: Seq<block::BlockView>,
    rs: Seq<(int, int)>,
    overlap: nat,
    w: Windowing,
    i: int,
    k: int,
)
    requires
        0 <= i < rs.len(),
        0 <= rs[i].0 <= k < rs[i].1 <= turns.len(),
        must_be_kept(turns[k], w),
        window_is_kept(resource_id, turns, rs[i], overlap, w),
    ensures
        is_windowed(chunks_of_windows(resource_id, turns, rs, overlap, w), turns[k].seq),
    decreases rs.len(),
{
    let all = chunks_of_windows(resource_id, turns, rs, overlap, w);
    let front = chunks_of_windows(resource_id, turns, rs.drop_last(), overlap, w);
    let back = chunks_of_window(resource_id, turns, rs.last(), overlap, w);
    if i < rs.len() - 1 {
        lemma_windowed(resource_id, turns, rs.drop_last(), overlap, w, i, k);
        let m = choose|m: int|
            0 <= m < front.len() && (#[trigger] front[m]).window_block_seqs.contains(turns[k].seq);
        assert(all[m] == front[m]);
    } else {
        let (a, b) = rs[i];
        assert(back[0].window_block_seqs.contains(turns[k].seq)) by {
            if is_oversized(turns, a, b, w) {
                assert(seq![turns[a].seq][0] == turns[k].seq);
            } else {
                let seqs = seqs_of(turns.subrange(a, b));
                assert(seqs[k - a] == turns[k].seq);
            }
        }
        assert(all[front.len() as int] == back[0]);
    }
}

/// Every turn that must be kept is in the window of a chunk.
proof fn lemma_turns_are_kept(
    resource_id: Seq<char>,
    blocks: Seq<block::BlockView>,
    config: super::config::ConfigView,
    measure: spec_fn(Seq<char>) -> nat,
)
    requires
        ({
            let ts = turns_of(blocks);
            let w = windowing(config, measure);
            &&& w.stride <= w.window
            &&& forall|i: int|
                0 <= i < windows_from(ts, 0, w).len() ==> window_is_kept(
                    resource_id,
                    ts,
                    #[trigger] windows_from(ts, 0, w)[i],
                    config.overlap(),
                    w,
                )
        }),
    ensures
        turns_are_kept(
            message_chunks(resource_id, blocks, config, measure),
            turns_of(blocks),
            windowing(config, measure),
        ),
{
    let ts = turns_of(blocks);
    let w = windowing(config, measure);
    let rs = windows_from(ts, 0, w);
    let plain = chunks_of_windows(resource_id, ts, rs, config.overlap(), w);
    let cs = message_chunks(resource_id, blocks, config, measure);
    assert forall|k: int| 0 <= k < ts.len() && must_be_kept(ts[k], w) implies is_windowed(
        cs,
        (#[trigger] ts[k]).seq,
    ) by {
        every_turn_is_in_a_window(ts, 0, w, k);
        let i = choose|i: int| 0 <= i < rs.len() && (#[trigger] rs[i]).0 <= k < rs[i].1;
        windows_respect_the_budget(ts, 0, w, i);
        lemma_windowed(resource_id, ts, rs, config.overlap(), w, i, k);
        let m = choose|m: int|
            0 <= m < plain.len() && (#[trigger] plain[m]).window_block_seqs.contains(ts[k].seq);
        assert(cs[m].window_block_seqs == plain[m].window_block_seqs);
    }
}

/// Whether every turn that must be kept is in the window of a chunk.
pub open spec fn turns_are_kept(
    cs: Seq<output::ChunkView>,
    turns: Seq<block::BlockView>,
    w: Windowing,
) -> bool {
    forall|k: int|
        0 <= k < turns.len() && must_be_kept(turns[k], w) ==> is_windowed(
            cs,
            (#[trigger] turns[k]).seq,
        )
}

/// A window of more than one turn is within the budget.
pub proof fn windows_respect_the_budget(
    turns: Seq<block::BlockView>,
    a: int,
    w: Windowing,
    i: int,
)
    requires
        0 <= a,
        w.stride > 0,
        0 <= i < windows_from(turns, a, w).len(),
    ensures
        ({
            let (x, y) = windows_from(turns, a, w)[i];
            &&& 0 <= x <= y <= turns.len()
            &&& y <= x + w.window
            &&& y > x + 1 ==> (w.measure)(window_text(turns, x, y)) <= w.max
        }),
    decreases turns.len() - a,
{
    lemma_next_start(turns, a, w);
    lemma_fitted_end(turns, a, full_end(turns.len() as int, a, w), w);
    if i > 0 {
        windows_respect_the_budget(turns, next_start(turns, a, w), w, i - 1);
    }
}

// ---------------------------------------------------------------------------
// The chunker
// ---------------------------------------------------------------------------
/// The turns among the blocks, by position.
fn collect_turns(blocks: &[Block]) -> (r: Vec<usize>)
    ensures
        forall|i: int| 0 <= i < r.len() ==> (#[trigger] r@[i]) < blocks.len(),
        turns_of(block::block_views(blocks@)) == Seq::new(
            r@.len(),
            |i: int| blocks@[r@[i] as int]@,
        ),
{
    let ghost bs = block::block_views(blocks@);
    let mut out: Vec<usize> = Vec::new();
    let mut i: usize = 0;
    assert(bs.take(0) =~= Seq::empty());
    assert(turns_of(bs.take(0)) =~= Seq::new(out@.len(), |j: int| blocks@[out@[j] as int]@));
    while i < blocks.len()
        invariant
            i <= blocks.len(),
            bs == block::block_views(blocks@),
            forall|j: int| 0 <= j < out.len() ==> (#[trigger] out@[j]) < blocks.len(),
            turns_of(bs.take(i as int)) == Seq::new(out@.len(), |j: int| blocks@[out@[j] as int]@),
        decreases blocks.len() - i,
    {
        assert(bs.take(i + 1).drop_last() =~= bs.take(i as int));
        assert(bs.take(i + 1).last() == blocks@[i as int]@);
        if blocks[i].is_turn() {
            let ghost before = Seq::new(out@.len(), |j: int| blocks@[out@[j] as int]@);
            out.push(i);
            assert(Seq::new(out@.len(), |j: int| blocks@[out@[j] as int]@) =~= before.push(
                blocks@[i as int]@,
            ));
        }
        i += 1;
    }
    assert(bs.take(blocks@.len() as int) =~= bs);
    out
}

/// The texts of the turns.
fn collect_texts(blocks: &[Block], turns: &Vec<usize>, Ghost(ts): Ghost<Seq<block::BlockView>>) -> (r:
    Vec<String>)
    requires
        forall|i: int| 0 <= i < turns.len() ==> (#[trigger] turns@[i]) < blocks.len(),
        ts == Seq::new(turns@.len(), |i: int| blocks@[turns@[i] as int]@),
    ensures
        text::views(r@) == turn_texts(ts),
{
    let mut out: Vec<String> = Vec::new();
    let mut i: usize = 0;
    while i < turns.len()
        invariant
            i <= turns.len(),
            out.len() == i,
            forall|j: int| 0 <= j < turns.len() ==> (#[trigger] turns@[j]) < blocks.len(),
            ts == Seq::new(turns@.len(), |j: int| blocks@[turns@[j] as int]@),
            forall|j: int| 0 <= j < i ==> (#[trigger] out@[j])@ == turn_text(ts[j]),
        decreases turns.len() - i,
    {
        assert(turns@[i as int] < blocks.len());
        let b = &blocks[turns[i]];
        assert(b@ == ts[i as int]);
        let prefix = label_of(b);
        out.push(text::concat(prefix.as_str(), b.text.as_str()));
        i += 1;
    }
    assert(text::views(out@) =~= turn_texts(ts));
    out
}

/// Appends the prose chunks of a turn, each with the turn's label.
fn push_labelled(
    out: &mut Vec<ChunkOutput>,
    turn: &Block,
    pieces: &Vec<ChunkOutput>,
)
    ensures
        output::chunk_views(final(out)@) == output::chunk_views(old(out)@) + all_labelled(
            turn@,
            output::chunk_views(pieces@),
        ),
{
    let prefix = label_of(turn);
    let ghost all = all_labelled(turn@, output::chunk_views(pieces@));
    let mut i: usize = 0;
    assert(output::chunk_views(out@) + all.take(0) =~= output::chunk_views(out@));
    while i < pieces.len()
        invariant
            i <= pieces.len(),
            prefix@ == turn_prefix(turn@.kind),
            all == all_labelled(turn@, output::chunk_views(pieces@)),
            output::chunk_views(out@) == output::chunk_views(old(out)@) + all.take(i as int),
        decreases pieces.len() - i,
    {
        let p = &pieces[i];
        let mut window: Vec<u32> = Vec::new();
        window.push(turn.seq);
        let path: Vec<String> = Vec::new();
        let c = ChunkOutput {
            id: String::new(),
            text: text::concat(prefix.as_str(), p.text.as_str()),
            span: p.span,
            heading_path: path,
            block_seq: turn.seq,
            seq_in_block: 0,
            window_block_seqs: window,
            block_kind: Some(turn.kind.kind_str().to_owned()),
        };
        proof {
            assert(text::views(path@) =~= Seq::empty());
            assert(window@ =~= seq![turn.seq]);
            assert(c@ == all[i as int]);
        }
        let ghost before = output::chunk_views(out@);
        let ghost cv = c@;
        out.push(c);
        assert(output::chunk_views(out@) =~= before.push(cv));
        assert(all.take(i + 1) =~= all.take(i as int).push(cv));
        assert(output::chunk_views(old(out)@) + all.take(i + 1) =~= (output::chunk_views(old(out)@)
            + all.take(i as int)).push(cv));
        i += 1;
    }
    assert(all.take(i as int) =~= all);
}

/// The sequence numbers of the turns `a..b`.
fn window_seqs(
    blocks: &[Block],
    turns: &Vec<usize>,
    a: usize,
    b: usize,
    Ghost(ts): Ghost<Seq<block::BlockView>>,
) -> (r: Vec<u32>)
    requires
        a <= b <= turns.len(),
        forall|i: int| 0 <= i < turns.len() ==> (#[trigger] turns@[i]) < blocks.len(),
        ts == Seq::new(turns@.len(), |i: int| blocks@[turns@[i] as int]@),
    ensures
        r@ == seqs_of(ts.subrange(a as int, b as int)),
{
    let mut out: Vec<u32> = Vec::new();
    let mut i: usize = a;
    while i < b
        invariant
            a <= i <= b <= turns.len(),
            out.len() == i - a,
            forall|j: int| 0 <= j < turns.len() ==> (#[trigger] turns@[j]) < blocks.len(),
            ts == Seq::new(turns@.len(), |j: int| blocks@[turns@[j] as int]@),
            forall|j: int| 0 <= j < i - a ==> (#[trigger] out@[j]) == ts[a + j].seq,
        decreases b - i,
    {
        assert(turns@[i as int] < blocks.len());
        out.push(blocks[turns[i]].seq);
        i += 1;
    }
    assert(out@ =~= seqs_of(ts.subrange(a as int, b as int)));
    out
}

/// End of the window at `a` that is within the budget.
fn fit_window<S: ChunkSizer + ?Sized>(
    texts: &Vec<String>,
    a: usize,
    full: usize,
    max: usize,
    sizer: &S,
    Ghost(ts): Ghost<Seq<block::BlockView>>,
    Ghost(w): Ghost<Windowing>,
) -> (e: usize)
    requires
        a <= full <= texts.len(),
        text::views(texts@) == turn_texts(ts),
        w.max == max,
        w.measure == sizer.measure(),
    ensures
        e == fitted_end(ts, a as int, full as int, w),
        a <= e <= full,
{
    let mut e: usize = full;
    while e > a && e - a > 1
        invariant_except_break
            a <= e <= full <= texts.len(),
            fitted_end(ts, a as int, full as int, w) == fitted_end(ts, a as int, e as int, w),
        invariant
            text::views(texts@) == turn_texts(ts),
            w.max == max,
            w.measure == sizer.measure(),
        ensures
            a <= e <= full,
            e == fitted_end(ts, a as int, full as int, w),
        decreases e,
    {
        let candidate = text::join_range(texts, a, e, "\n\n");
        if sizer.size(candidate.as_str()) <= max {
            break;
        }
        e -= 1;
    }
    e
}

proof fn lemma_chunks_of_windows_push(
    resource_id: Seq<char>,
    turns: Seq<block::BlockView>,
    rs: Seq<(int, int)>,
    r: (int, int),
    overlap: nat,
    w: Windowing,
)
    ensures
        chunks_of_windows(resource_id, turns, rs.push(r), overlap, w) == chunks_of_windows(
            resource_id,
            turns,
            rs,
            overlap,
            w,
        ) + chunks_of_window(resource_id, turns, r, overlap, w),
{
    assert(rs.push(r).drop_last() =~= rs);
}

/// The messages chunker. Each non-empty message or segment is a turn; a window takes as
/// many turns as are asked for and fit the budget, and a turn that alone exceeds it is
/// split as prose.
#[verifier::rlimit(40)]
pub fn chunk_messages<S: ChunkSizer + ?Sized>(
    resource_id: &str,
    blocks: &[Block],
    config: &ChunkerConfig,
    sizer: &S,
) -> (r: Result<Vec<ChunkOutput>, Error>)
    ensures
        r is Ok,
        output::chunk_views(r->Ok_0@) == message_chunks(
            resource_id@,
            block::block_views(blocks@),
            config@,
            sizer.measure(),
        ),
        // Every turn is in the window of a chunk, unless it is blank and over the budget.
        windowing(config@, sizer.measure()).stride <= windowing(
            config@,
            sizer.measure(),
        ).window ==> turns_are_kept(
            output::chunk_views(r->Ok_0@),
            turns_of(block::block_views(blocks@)),
            windowing(config@, sizer.measure()),
        ),
        // Every turn is said: as a whole in a window, or in parts.
        windowing(config@, sizer.measure()).stride <= windowing(
            config@,
            sizer.measure(),
        ).window ==> message_laws::every_turn_is_said(
            output::chunk_views(r->Ok_0@),
            message_laws::conversation(block::block_views(blocks@)),
        ),
{
    let max: usize = config.resolved_target_tokens();
    let window_turns: usize = config.resolved_window_turns();
    let stride: usize = if config.resolved_stride_turns() == 0 {
        1
    } else {
        config.resolved_stride_turns()
    };
    let turns = collect_turns(blocks);
    let ghost ts = turns_of(block::block_views(blocks@));
    let ghost w = windowing(config@, sizer.measure());
    let ghost overlap = config@.overlap();
    let texts = collect_texts(blocks, &turns, Ghost(ts));
    let n: usize = turns.len();
    assert(text::views(texts@).len() == n);
    let mut out: Vec<ChunkOutput> = Vec::new();
    let mut a: usize = 0;
    let ghost mut done: Seq<(int, int)> = Seq::empty();
    proof {
        assert(done + windows_from(ts, 0, w) =~= windows_from(ts, 0, w));
        assert(output::chunk_views(out@) =~= chunks_of_windows(resource_id@, ts, done, overlap, w));
    }
    while a < n
        invariant
            a <= n,
            n == turns.len() == texts.len() == ts.len(),
            max == config@.target(),
            window_turns == w.window,
            stride == w.stride,
            stride > 0,
            max == w.max,
            overlap == config@.overlap(),
            w == windowing(config@, sizer.measure()),
            forall|i: int| 0 <= i < turns.len() ==> (#[trigger] turns@[i]) < blocks.len(),
            ts == Seq::new(turns@.len(), |i: int| blocks@[turns@[i] as int]@),
            text::views(texts@) == turn_texts(ts),
            windows_from(ts, 0, w) == done + windows_from(ts, a as int, w),
            output::chunk_views(out@) == chunks_of_windows(resource_id@, ts, done, overlap, w),
            forall|i: int|
                0 <= i < done.len() ==> window_is_kept(
                    resource_id@,
                    ts,
                    #[trigger] done[i],
                    overlap,
                    w,
                ),
            forall|i: int|
                0 <= i < done.len() ==> window_is_split(
                    resource_id@,
                    ts,
                    #[trigger] done[i],
                    overlap,
                    w,
                ),
        decreases n - a,
    {
        let full: usize = if window_turns >= n - a {
            n
        } else {
            a + window_turns
        };
        assert(full == full_end(n as int, a as int, w));
        let e = fit_window(&texts, a, full, max, sizer, Ghost(ts), Ghost(w));
        let ghost r = (a as int, e as int);
        proof {
            lemma_next_start(ts, a as int, w);
            lemma_chunks_of_windows_push(resource_id@, ts, done, r, overlap, w);
            assert(text::views(texts@)[a as int] == turn_text(ts[a as int]));
        }
        assert(turns@[a as int] < blocks.len());
        let turn = &blocks[turns[a]];
        assert(turn@ == ts[a as int]);
        let alone = e - a == 1;
        if alone && sizer.size(texts[a].as_str()) > max {
            let pieces = match prose::chunk_prose(
                resource_id,
                turn.text.as_str(),
                config,
                sizer,
                turn.seq,
            ) {
                Ok(p) => p,
                Err(_) => Vec::new(),
            };
            proof {
                if has_words(turn@) {
                    let k = choose|k: int|
                        0 <= k < turn@.text.len() && !text::white_space(#[trigger] turn@.text[k]);
                    assert(output::covered(turn@.text, output::chunk_views(pieces@), k));
                    assert(pieces@.len() > 0);
                }
                assert(window_is_kept(resource_id@, ts, r, overlap, w));
                assert(window_is_split(resource_id@, ts, r, overlap, w));
            }
            push_labelled(&mut out, turn, &pieces);
        } else {
            let seqs = window_seqs(blocks, &turns, a, e, Ghost(ts));
            let path: Vec<String> = Vec::new();
            let c = ChunkOutput {
                id: String::new(),
                text: text::join_range(&texts, a, e, "\n\n"),
                span: Span::new(0, 0),
                heading_path: path,
                block_seq: turn.seq,
                seq_in_block: 0,
                window_block_seqs: seqs,
                block_kind: Some(turn.kind.kind_str().to_owned()),
            };
            let ghost before = output::chunk_views(out@);
            proof {
                assert(text::views(path@) =~= Seq::empty());
                assert(c@ == window_chunk(ts, a as int, e as int));
            }
            let ghost cv = c@;
            out.push(c);
            assert(output::chunk_views(out@) =~= before + seq![cv]);
        }
        proof {
            let rest = windows_from(ts, next_start(ts, a as int, w), w);
            assert(windows_from(ts, a as int, w) =~= seq![r] + rest);
            assert(done + (seq![r] + rest) =~= done.push(r) + rest);
            done = done.push(r);
        }
        if e < full {
            a = e;
        } else if stride >= n - a {
            proof {
                assert(windows_from(ts, a + w.stride, w) =~= Seq::empty());
                assert(windows_from(ts, n as int, w) =~= Seq::empty());
            }
            a = n;
        } else {
            a = a + stride;
        }
    }
    assert(done + windows_from(ts, a as int, w) =~= done);
    proof {
        if w.stride <= w.window {
            lemma_turns_are_kept(
                resource_id@,
                block::block_views(blocks@),
                config@,
                sizer.measure(),
            );
            message_laws::lemma_every_turn_is_said(
                resource_id@,
                block::block_views(blocks@),
                config@,
                sizer.measure(),
            );
        }
    }
    output::stamp_positions(&mut out);
    output::finalize_ids(resource_id, &mut out);
    Ok(out)
}

} // verus!
