//! What chunking promises of a conversation: who said what, and in which windows.

use super::config;
use super::messages;
use super::messages::Windowing;
use super::output;
use super::prose;
use crate::block;
use crate::text;
use vstd::prelude::*;

verus! {

// ---------------------------------------------------------------------------
// Who said it
// ---------------------------------------------------------------------------
/// Whether a label says who is speaking and when. A message's begins with its sender in
/// brackets, whether or not it has a timestamp; a segment's has its times, behind the speaker
/// if there is one. Each ends in a colon and a space.
pub open spec fn tells_who_and_when(label: Seq<char>, kind: block::KindView) -> bool {
    match kind {
        block::KindView::Message { sender, timestamp: Some(at) } => label == seq!['['] + sender
            + seq![']', ' ', '('] + at + seq![')', ':', ' '],
        block::KindView::Message { sender, timestamp: None } => label == seq!['['] + sender
            + seq![']', ':', ' '],
        block::KindView::Segment { speaker: Some(speaker), start_ms, end_ms } => label == seq!['[']
            + speaker + seq![']', ' ', '('] + text::decimal(start_ms as nat) + seq!['-']
            + text::decimal(end_ms as nat) + seq![')', ':', ' '],
        block::KindView::Segment { speaker: None, start_ms, end_ms } => label == seq!['(']
            + text::decimal(start_ms as nat) + seq!['-'] + text::decimal(end_ms as nat) + seq![
            ')',
            ':',
            ' ',
        ],
        _ => label.len() == 0,
    }
}

/// Whether a part of a chunk is a turn: its whole text, directly behind its label.
pub open spec fn is_labelled_turn(part: Seq<char>, turn: block::BlockView) -> bool {
    exists|label: Seq<char>|
        #[trigger] tells_who_and_when(label, turn.kind) && part == label + turn.text
}

/// Texts with a blank line between each two of them.
pub open spec fn in_paragraphs(parts: Seq<Seq<char>>) -> Seq<char>
    decreases parts.len(),
{
    if parts.len() == 0 {
        Seq::empty()
    } else if parts.len() == 1 {
        parts[0]
    } else {
        parts[0] + seq!['\n', '\n'] + in_paragraphs(parts.drop_first())
    }
}

/// The turns of a conversation: the messages and segments that have text, in order.
pub open spec fn conversation(bs: Seq<block::BlockView>) -> Seq<block::BlockView> {
    bs.filter(|b: block::BlockView| b.text.len() > 0 && (b.kind is Message || b.kind is Segment))
}

/// Whether a chunk is the window of the turns `a..b`: all of them, each behind its label, in
/// paragraphs, with their numbers.
pub open spec fn is_window(
    c: output::ChunkView,
    turns: Seq<block::BlockView>,
    a: int,
    b: int,
    parts: Seq<Seq<char>>,
) -> bool {
    &&& 0 <= a <= b <= turns.len()
    &&& a < turns.len()
    &&& parts.len() == b - a
    &&& forall|j: int|
        0 <= j < parts.len() ==> is_labelled_turn(#[trigger] parts[j], turns[a + j])
    &&& c.text == in_paragraphs(parts)
    &&& c.window_block_seqs.len() == b - a
    &&& forall|j: int|
        0 <= j < b - a ==> (#[trigger] c.window_block_seqs[j]) == turns[a + j].seq
    &&& c.block_seq == turns[a].seq
    &&& c.block_kind == Some(turns[a].kind.name())
    &&& c.heading_path.len() == 0
}

/// Whether a chunk is a piece of the turn at `a`, behind the turn's label.
pub open spec fn is_part_of_turn(
    c: output::ChunkView,
    turns: Seq<block::BlockView>,
    a: int,
    label: Seq<char>,
    piece: Seq<char>,
) -> bool {
    &&& 0 <= a < turns.len()
    &&& tells_who_and_when(label, turns[a].kind)
    &&& c.text == label + piece
    &&& c.window_block_seqs == seq![turns[a].seq]
    &&& c.block_seq == turns[a].seq
    &&& c.block_kind == Some(turns[a].kind.name())
    &&& c.heading_path.len() == 0
}

proof fn lemma_labels(kind: block::KindView)
    requires
        kind is Message || kind is Segment,
    ensures
        tells_who_and_when(messages::turn_prefix(kind), kind),
{
    reveal_strlit("[");
    reveal_strlit("] (");
    reveal_strlit("): ");
    reveal_strlit("]: ");
    reveal_strlit("(");
    reveal_strlit("-");
    reveal_strlit("] ");
    assert("["@ =~= seq!['[']);
    assert("] ("@ =~= seq![']', ' ', '(']);
    assert("): "@ =~= seq![')', ':', ' ']);
    assert("]: "@ =~= seq![']', ':', ' ']);
    assert("("@ =~= seq!['(']);
    assert("-"@ =~= seq!['-']);
    assert("] "@ =~= seq![']', ' ']);
    match kind {
        block::KindView::Segment { speaker: Some(speaker), start_ms, end_ms } => {
            let a = text::decimal(start_ms as nat);
            let b = text::decimal(end_ms as nat);
            assert(messages::turn_prefix(kind) =~= seq!['['] + speaker + seq![']', ' ', '('] + a
                + seq!['-'] + b + seq![')', ':', ' ']);
        },
        _ => {},
    }
}

proof fn lemma_conversation(bs: Seq<block::BlockView>)
    ensures
        messages::turns_of(bs) == conversation(bs),
    decreases bs.len(),
{
    reveal(Seq::filter);
    if bs.len() > 0 {
        lemma_conversation(bs.drop_last());
    } else {
        assert(messages::turns_of(bs) =~= conversation(bs));
    }
}

proof fn lemma_turn_kinds(bs: Seq<block::BlockView>)
    ensures
        forall|i: int|
            0 <= i < conversation(bs).len() ==> {
                let t = #[trigger] conversation(bs)[i];
                t.text.len() > 0 && (t.kind is Message || t.kind is Segment)
            },
{
    let p = |b: block::BlockView| b.text.len() > 0 && (b.kind is Message || b.kind is Segment);
    assert forall|i: int| 0 <= i < conversation(bs).len() implies {
        let t = #[trigger] conversation(bs)[i];
        t.text.len() > 0 && (t.kind is Message || t.kind is Segment)
    } by {
        broadcast use vstd::seq_lib::group_filter_ensures;
        assert(p(bs.filter(p)[i]));
    }
}

proof fn lemma_in_paragraphs(parts: Seq<Seq<char>>)
    ensures
        text::joined(parts, "\n\n"@) == in_paragraphs(parts),
    decreases parts.len(),
{
    reveal_strlit("\n\n");
    let sep = "\n\n"@;
    assert(sep =~= seq!['\n', '\n']);
    if parts.len() > 1 {
        let rest = parts.drop_first();
        lemma_in_paragraphs(rest);
        lemma_in_paragraphs(parts.drop_last());
        if parts.len() == 2 {
            assert(text::joined(parts.drop_last(), sep) == parts[0]);
            assert(in_paragraphs(rest) == parts[1]);
        } else {
            let middle = parts.drop_last().drop_first();
            lemma_in_paragraphs(middle);
            assert(rest.drop_last() =~= middle);
            assert(in_paragraphs(parts.drop_last()) == parts[0] + sep + in_paragraphs(middle));
            assert(text::joined(rest, sep) == text::joined(middle, sep) + sep + parts.last());
            assert(text::joined(parts, sep) =~= parts[0] + sep + text::joined(rest, sep));
        }
    }
}

/// Where among the chunks of windows a chunk comes from.
proof fn lemma_window_of(
    resource_id: Seq<char>,
    turns: Seq<block::BlockView>,
    rs: Seq<(int, int)>,
    overlap: nat,
    w: Windowing,
    i: int,
) -> (at: (int, int))
    requires
        0 <= i < messages::chunks_of_windows(resource_id, turns, rs, overlap, w).len(),
    ensures
        0 <= at.0 < rs.len(),
        0 <= at.1 < messages::chunks_of_window(resource_id, turns, rs[at.0], overlap, w).len(),
        messages::chunks_of_windows(resource_id, turns, rs, overlap, w)[i]
            == messages::chunks_of_window(resource_id, turns, rs[at.0], overlap, w)[at.1],
    decreases rs.len(),
{
    let front = messages::chunks_of_windows(resource_id, turns, rs.drop_last(), overlap, w);
    if i < front.len() {
        lemma_window_of(resource_id, turns, rs.drop_last(), overlap, w, i)
    } else {
        (rs.len() - 1, i - front.len())
    }
}

/// Windows lie in the conversation.
proof fn lemma_window_bounds(turns: Seq<block::BlockView>, a: int, w: Windowing, i: int)
    requires
        0 <= a,
        w.stride > 0,
        0 <= i < messages::windows_from(turns, a, w).len(),
    ensures
        a <= messages::windows_from(turns, a, w)[i].0 < turns.len(),
    decreases turns.len() - a,
{
    if i > 0 {
        lemma_window_bounds(turns, messages::next_start(turns, a, w), w, i - 1);
    }
}

/// Every chunk of a conversation says who is speaking. It is either a window of whole turns,
/// each directly behind its label, or a part of one turn behind that turn's label.
pub proof fn chunks_say_who_is_speaking(
    resource_id: Seq<char>,
    bs: Seq<block::BlockView>,
    config: config::ConfigView,
    measure: spec_fn(Seq<char>) -> nat,
    i: int,
)
    requires
        0 <= i < messages::message_chunks(resource_id, bs, config, measure).len(),
    ensures
        ({
            let c = messages::message_chunks(resource_id, bs, config, measure)[i];
            let turns = conversation(bs);
            ||| exists|a: int, b: int, parts: Seq<Seq<char>>|
                #[trigger] is_window(c, turns, a, b, parts)
            ||| exists|a: int, label: Seq<char>, piece: Seq<char>|
                #[trigger] is_part_of_turn(c, turns, a, label, piece)
        }),
{
    let turns = conversation(bs);
    lemma_conversation(bs);
    lemma_turn_kinds(bs);
    let w = messages::windowing(config, measure);
    let rs = messages::windows_from(turns, 0, w);
    let (at, j) = lemma_window_of(resource_id, turns, rs, config.overlap(), w, i);
    let (a, b) = rs[at];
    messages::windows_respect_the_budget(turns, 0, w, at);
    lemma_window_bounds(turns, 0, w, at);
    let c = messages::message_chunks(resource_id, bs, config, measure)[i];
    let plain = messages::chunks_of_window(resource_id, turns, (a, b), config.overlap(), w)[j];
    assert(c.text == plain.text && c.window_block_seqs == plain.window_block_seqs);
    if messages::is_oversized(turns, a, b, w) {
        let label = messages::turn_prefix(turns[a].kind);
        lemma_labels(turns[a].kind);
        let pieces = prose::prose_chunks(
            resource_id,
            turns[a].text,
            w.max,
            config.overlap(),
            measure,
            turns[a].seq,
        );
        assert(plain == messages::labelled(turns[a], pieces[j]));
        assert(is_part_of_turn(c, turns, a, label, pieces[j].text));
    } else {
        let parts = messages::turn_texts(turns).subrange(a, b);
        lemma_is_window(c, turns, a, b);
        assert(is_window(c, turns, a, b, parts));
    }
}

/// The chunks of a conversation are numbered in order, and each has the id that its document, its
/// first turn, its text and its number determine.
pub proof fn chunks_of_a_conversation_are_numbered(
    resource_id: Seq<char>,
    bs: Seq<block::BlockView>,
    config: config::ConfigView,
    measure: spec_fn(Seq<char>) -> nat,
    i: int,
)
    requires
        0 <= i < messages::message_chunks(resource_id, bs, config, measure).len(),
    ensures
        ({
            let c = messages::message_chunks(resource_id, bs, config, measure)[i];
            &&& c.seq_in_block == i as u32
            &&& c.id == crate::ids::chunk_id_of(resource_id, c.block_seq, c.text, i as u32)
        }),
{
}

/// The label of a message begins with its sender in brackets, with or without a timestamp.
pub proof fn message_labels_begin_with_the_sender(sender: Seq<char>, timestamp: Option<Seq<char>>)
    ensures
        text::starts_with(
            messages::message_prefix(sender, timestamp),
            seq!['['] + sender + seq![']'],
        ),
        timestamp matches Some(t) ==> text::occurs_in(
            t,
            messages::message_prefix(sender, timestamp),
        ),
        messages::message_prefix(sender, timestamp).len() >= sender.len() + 4,
        messages::message_prefix(sender, timestamp).last() == ' ',
{
    let kind = block::KindView::Message { sender, timestamp };
    let label = messages::message_prefix(sender, timestamp);
    lemma_labels(kind);
    let head = seq!['['] + sender + seq![']'];
    assert(label.take(head.len() as int) =~= head);
    if let Some(t) = timestamp {
        let at = sender.len() as int + 4;
        assert(label.subrange(at, at + t.len()) =~= t);
        assert(text::stands_at(t, label, at));
    }
}

/// The same words from different senders, at the same time or at none, are labelled
/// differently: a text behind its label says whose it is.
pub proof fn words_of_different_senders_differ(
    a: Seq<char>,
    b: Seq<char>,
    timestamp: Option<Seq<char>>,
    words: Seq<char>,
)
    requires
        messages::message_prefix(a, timestamp) + words == messages::message_prefix(b, timestamp)
            + words,
    ensures
        a == b,
{
    lemma_labels(block::KindView::Message { sender: a, timestamp });
    lemma_labels(block::KindView::Message { sender: b, timestamp });
    let x = messages::message_prefix(a, timestamp) + words;
    let y = messages::message_prefix(b, timestamp) + words;
    assert(x.len() == y.len());
    assert(a.len() == b.len());
    assert(x.subrange(1, 1 + a.len() as int) =~= a);
    assert(y.subrange(1, 1 + b.len() as int) =~= b);
}

/// Two documents of one message each, alike but for the sender, have different chunks, where
/// each message fits into a chunk.
pub proof fn messages_of_different_senders_differ(
    resource_id: Seq<char>,
    a: block::BlockView,
    b: block::BlockView,
    config: config::ConfigView,
    measure: spec_fn(Seq<char>) -> nat,
)
    requires
        a.kind matches block::KindView::Message { sender: x, timestamp: s } && (
        b.kind matches block::KindView::Message { sender: y, timestamp: t } && x != y && s == t),
        a.text == b.text,
        a.text.len() > 0,
        config.window() > 0,
        measure(messages::turn_text(a)) <= config.target(),
        measure(messages::turn_text(b)) <= config.target(),
    ensures
        messages::message_chunks(resource_id, seq![a], config, measure).len() == 1,
        messages::message_chunks(resource_id, seq![b], config, measure).len() == 1,
        messages::message_chunks(resource_id, seq![a], config, measure)[0].text
            != messages::message_chunks(resource_id, seq![b], config, measure)[0].text,
{
    lemma_single_message(resource_id, a, config, measure);
    lemma_single_message(resource_id, b, config, measure);
    if messages::turn_text(a) == messages::turn_text(b) {
        words_of_different_senders_differ(
            a.kind->Message_sender,
            b.kind->Message_sender,
            a.kind->Message_timestamp,
            a.text,
        );
    }
}

proof fn lemma_single_message(
    resource_id: Seq<char>,
    a: block::BlockView,
    config: config::ConfigView,
    measure: spec_fn(Seq<char>) -> nat,
)
    requires
        a.is_turn(),
        config.window() > 0,
        measure(messages::turn_text(a)) <= config.target(),
    ensures
        messages::message_chunks(resource_id, seq![a], config, measure).len() == 1,
        messages::message_chunks(resource_id, seq![a], config, measure)[0].text
            == messages::turn_text(a),
{
    let turns = messages::turns_of(seq![a]);
    let w = messages::windowing(config, measure);
    assert(seq![a].drop_last() =~= Seq::empty());
    assert(messages::turns_of(Seq::<block::BlockView>::empty()) =~= Seq::empty());
    assert(turns =~= seq![a]);
    assert(messages::full_end(1, 0, w) == 1);
    assert(messages::end_of_window(turns, 0, w) == 1);
    let rs = messages::windows_from(turns, 0, w);
    assert(rs =~= seq![(0int, 1int)]);
    assert(rs.drop_last() =~= Seq::empty());
    let part = messages::turn_texts(turns).subrange(0, 1);
    assert(part =~= seq![messages::turn_text(a)]);
    assert(messages::chunks_of_windows(
        resource_id,
        turns,
        Seq::<(int, int)>::empty(),
        config.overlap(),
        w,
    ) =~= Seq::empty());
    let cs = messages::chunks_of_windows(resource_id, turns, rs, config.overlap(), w);
    assert(cs =~= seq![messages::window_chunk(turns, 0, 1)]);
}

// ---------------------------------------------------------------------------
// Nothing is left unsaid
// ---------------------------------------------------------------------------
/// Whether the chunk is the stretch `a..b` of a turn's text, behind the turn's label.
pub open spec fn says(
    c: output::ChunkView,
    turn: block::BlockView,
    label: Seq<char>,
    a: int,
    b: int,
) -> bool {
    &&& 0 <= a < b <= turn.text.len()
    &&& tells_who_and_when(label, turn.kind)
    &&& c.text == label + turn.text.subrange(a, b)
    &&& c.start == text::byte_offset(turn.text, a)
    &&& c.end == text::byte_offset(turn.text, b)
    &&& c.window_block_seqs == seq![turn.seq]
    &&& c.block_seq == turn.seq
}

/// Whether the turn at `k` is in the window of one of the chunks, as a whole.
pub open spec fn is_said_as_a_whole(
    cs: Seq<output::ChunkView>,
    turns: Seq<block::BlockView>,
    k: int,
) -> bool {
    exists|i: int, a: int, b: int, parts: Seq<Seq<char>>|
        0 <= i < cs.len() && a <= k < b && #[trigger] is_window(cs[i], turns, a, b, parts)
}

/// Whether the character at `p` of a turn's text is in one of the chunks.
pub open spec fn character_is_said(
    cs: Seq<output::ChunkView>,
    turn: block::BlockView,
    p: int,
) -> bool {
    exists|i: int, label: Seq<char>, a: int, b: int|
        0 <= i < cs.len() && a <= p < b && #[trigger] says(cs[i], turn, label, a, b)
}

/// Whether every character of a turn's text that is not white space is in one of the chunks.
pub open spec fn is_said_in_parts(cs: Seq<output::ChunkView>, turn: block::BlockView) -> bool {
    forall|p: int|
        0 <= p < turn.text.len() && !text::white_space(turn.text[p]) ==> #[trigger] character_is_said(
            cs,
            turn,
            p,
        )
}

/// Whether every turn is said: as a whole in a window, or in parts that leave nothing out but
/// white space.
pub open spec fn every_turn_is_said(
    cs: Seq<output::ChunkView>,
    turns: Seq<block::BlockView>,
) -> bool {
    forall|k: int|
        0 <= k < turns.len() ==> #[trigger] is_said_as_a_whole(cs, turns, k) || is_said_in_parts(
            cs,
            turns[k],
        )
}

proof fn lemma_window_place(
    resource_id: Seq<char>,
    turns: Seq<block::BlockView>,
    rs: Seq<(int, int)>,
    overlap: nat,
    w: Windowing,
    i: int,
) -> (at: int)
    requires
        0 <= i < rs.len(),
    ensures
        0 <= at,
        at + messages::chunks_of_window(resource_id, turns, rs[i], overlap, w).len()
            <= messages::chunks_of_windows(resource_id, turns, rs, overlap, w).len(),
        forall|j: int|
            0 <= j < messages::chunks_of_window(resource_id, turns, rs[i], overlap, w).len()
                ==> messages::chunks_of_windows(resource_id, turns, rs, overlap, w)[at + j]
                == #[trigger] messages::chunks_of_window(resource_id, turns, rs[i], overlap, w)[j],
    decreases rs.len(),
{
    let front = messages::chunks_of_windows(resource_id, turns, rs.drop_last(), overlap, w);
    if i == rs.len() - 1 {
        front.len() as int
    } else {
        lemma_window_place(resource_id, turns, rs.drop_last(), overlap, w, i)
    }
}

/// The chunk of a window of turns is that window, whatever its id and position.
proof fn lemma_is_window(c: output::ChunkView, turns: Seq<block::BlockView>, a: int, b: int)
    requires
        0 <= a <= b <= turns.len(),
        a < turns.len(),
        forall|k: int|
            0 <= k < turns.len() ==> (#[trigger] turns[k]).kind is Message || turns[k].kind
                is Segment,
        c.text == messages::window_text(turns, a, b),
        c.window_block_seqs == messages::seqs_of(turns.subrange(a, b)),
        c.block_seq == turns[a].seq,
        c.block_kind == Some(turns[a].kind.name()),
        c.heading_path.len() == 0,
    ensures
        is_window(c, turns, a, b, messages::turn_texts(turns).subrange(a, b)),
{
    let parts = messages::turn_texts(turns).subrange(a, b);
    lemma_in_paragraphs(parts);
    assert forall|k: int| 0 <= k < parts.len() implies is_labelled_turn(
        #[trigger] parts[k],
        turns[a + k],
    ) by {
        lemma_labels(turns[a + k].kind);
        assert(tells_who_and_when(messages::turn_prefix(turns[a + k].kind), turns[a + k].kind));
    }
    assert forall|k: int| 0 <= k < b - a implies (#[trigger] c.window_block_seqs[k]) == turns[a
        + k].seq by {
        assert(turns.subrange(a, b)[k] == turns[a + k]);
    }
}

/// Where each turn that is too long is split without loss, every turn is said.
#[verifier::rlimit(30)]
pub(super) proof fn lemma_every_turn_is_said(
    resource_id: Seq<char>,
    bs: Seq<block::BlockView>,
    config: config::ConfigView,
    measure: spec_fn(Seq<char>) -> nat,
)
    requires
        ({
            let ts = messages::turns_of(bs);
            let w = messages::windowing(config, measure);
            &&& w.stride <= w.window
            &&& forall|i: int|
                0 <= i < messages::windows_from(ts, 0, w).len() ==> messages::window_is_split(
                    resource_id,
                    ts,
                    #[trigger] messages::windows_from(ts, 0, w)[i],
                    config.overlap(),
                    w,
                )
        }),
    ensures
        every_turn_is_said(
            messages::message_chunks(resource_id, bs, config, measure),
            conversation(bs),
        ),
{
    let turns = conversation(bs);
    lemma_conversation(bs);
    lemma_turn_kinds(bs);
    let w = messages::windowing(config, measure);
    let rs = messages::windows_from(turns, 0, w);
    let cs = messages::message_chunks(resource_id, bs, config, measure);
    let plain = messages::chunks_of_windows(resource_id, turns, rs, config.overlap(), w);
    assert forall|k: int| 0 <= k < turns.len() implies #[trigger] is_said_as_a_whole(cs, turns, k)
        || is_said_in_parts(cs, turns[k]) by {
        messages::every_turn_is_in_a_window(turns, 0, w, k);
        let i = choose|i: int| 0 <= i < rs.len() && (#[trigger] rs[i]).0 <= k < rs[i].1;
        messages::windows_respect_the_budget(turns, 0, w, i);
        let (a, b) = rs[i];
        let at = lemma_window_place(resource_id, turns, rs, config.overlap(), w, i);
        let mine = messages::chunks_of_window(resource_id, turns, rs[i], config.overlap(), w);
        assert forall|j: int| 0 <= j < mine.len() implies {
            let c = #[trigger] cs[at + j];
            &&& c.text == mine[j].text && c.start == mine[j].start && c.end == mine[j].end
            &&& c.window_block_seqs == mine[j].window_block_seqs && c.block_seq
                == mine[j].block_seq && c.block_kind == mine[j].block_kind
            &&& c.heading_path == mine[j].heading_path
        } by {
            assert(plain[at + j] == mine[j]);
        }
        if messages::is_oversized(turns, a, b, w) {
            let turn = turns[k];
            let label = messages::turn_prefix(turn.kind);
            lemma_labels(turn.kind);
            let pieces = prose::prose_chunks(
                resource_id,
                turn.text,
                w.max,
                config.overlap(),
                measure,
                turn.seq,
            );
            assert(messages::window_is_split(resource_id, turns, rs[i], config.overlap(), w));
            assert forall|p: int|
                0 <= p < turn.text.len() && !text::white_space(
                    turn.text[p],
                ) implies #[trigger] character_is_said(cs, turn, p) by {
                assert(output::covered(turn.text, pieces, p));
                let (j, x, y) = choose|j: int, x: int, y: int|
                    0 <= j < pieces.len() && x <= p < y && #[trigger] output::is_slice(
                        turn.text,
                        pieces[j],
                        x,
                        y,
                    );
                assert(mine[j] == messages::labelled(turn, pieces[j]));
                assert(cs[at + j].text == mine[j].text);
                assert(says(cs[at + j], turn, label, x, y));
            }
            assert(is_said_in_parts(cs, turns[k]));
        } else {
            assert(mine[0] == messages::window_chunk(turns, a, b));
            assert(cs[at + 0].text == mine[0].text);
            lemma_is_window(cs[at], turns, a, b);
            assert(is_said_as_a_whole(cs, turns, k));
        }
    }
}

/// Every turn that fits into a chunk by itself is in a window as a whole, behind its label, if
/// windows begin no further apart than they reach.
pub proof fn fitting_turns_are_said_as_a_whole(
    resource_id: Seq<char>,
    bs: Seq<block::BlockView>,
    config: config::ConfigView,
    measure: spec_fn(Seq<char>) -> nat,
    k: int,
)
    requires
        0 < config.stride() <= config.window(),
        0 <= k < conversation(bs).len(),
        measure(messages::turn_text(conversation(bs)[k])) <= config.target(),
    ensures
        is_said_as_a_whole(
            messages::message_chunks(resource_id, bs, config, measure),
            conversation(bs),
            k,
        ),
{
    let turns = conversation(bs);
    lemma_conversation(bs);
    lemma_turn_kinds(bs);
    let w = messages::windowing(config, measure);
    let rs = messages::windows_from(turns, 0, w);
    let cs = messages::message_chunks(resource_id, bs, config, measure);
    messages::every_turn_is_in_a_window(turns, 0, w, k);
    let i = choose|i: int| 0 <= i < rs.len() && (#[trigger] rs[i]).0 <= k < rs[i].1;
    messages::windows_respect_the_budget(turns, 0, w, i);
    let (a, b) = rs[i];
    let at = lemma_window_place(resource_id, turns, rs, config.overlap(), w, i);
    let mine = messages::chunks_of_window(resource_id, turns, rs[i], config.overlap(), w);
    let plain = messages::chunks_of_windows(resource_id, turns, rs, config.overlap(), w);
    assert(mine[0] == messages::window_chunk(turns, a, b));
    assert(plain[at + 0] == mine[0]);
    lemma_is_window(cs[at], turns, a, b);
}

// ---------------------------------------------------------------------------
// Windows
// ---------------------------------------------------------------------------
/// Whether a window is as it should be: it begins in the conversation and is as long as a
/// window may be, or as the conversation goes on, or else as fits; one turn more would not fit.
pub open spec fn is_as_long_as_fits(turns: Seq<block::BlockView>, r: (int, int), w: Windowing) -> bool {
    let full = if r.0 + w.window <= turns.len() {
        r.0 + w.window
    } else {
        turns.len() as int
    };
    &&& 0 <= r.0 < turns.len()
    &&& r.0 <= r.1 <= full
    &&& r.1 < full ==> r.1 > r.0 && (w.measure)(messages::window_text(turns, r.0, r.1 + 1)) > w.max
    &&& r.1 > r.0 + 1 ==> (w.measure)(messages::window_text(turns, r.0, r.1)) <= w.max
}

/// Whether a window follows another one: a stride further on, or where the other one was cut
/// short.
pub open spec fn follows(
    turns: Seq<block::BlockView>,
    r: (int, int),
    next: int,
    w: Windowing,
) -> bool {
    if r.1 < r.0 + w.window && r.1 < turns.len() {
        next == r.1
    } else {
        next == r.0 + w.stride
    }
}

proof fn lemma_fits(turns: Seq<block::BlockView>, a: int, e: int, w: Windowing)
    requires
        a <= e,
    ensures
        ({
            let f = messages::fitted_end(turns, a, e, w);
            &&& a <= f <= e
            &&& f < e ==> f > a && (w.measure)(messages::window_text(turns, a, f + 1)) > w.max
            &&& f > a + 1 ==> (w.measure)(messages::window_text(turns, a, f)) <= w.max
        }),
    decreases e - a,
{
    if e > a + 1 && (w.measure)(messages::window_text(turns, a, e)) > w.max {
        lemma_fits(turns, a, e - 1, w);
    }
}

/// A conversation is gone through window by window: the first begins with the first turn, each
/// is as long as fits, each follows the one before it, and the last leaves nothing to begin
/// another one with.
#[verifier::rlimit(30)]
pub proof fn windows_slide_over_the_conversation(
    turns: Seq<block::BlockView>,
    a: int,
    w: Windowing,
)
    requires
        0 <= a < turns.len(),
        w.stride > 0,
    ensures
        ({
            let rs = messages::windows_from(turns, a, w);
            &&& rs.len() > 0
            &&& rs[0].0 == a
            &&& forall|i: int| 0 <= i < rs.len() ==> is_as_long_as_fits(turns, #[trigger] rs[i], w)
            &&& forall|i: int|
                0 <= i < rs.len() - 1 ==> follows(turns, #[trigger] rs[i], rs[i + 1].0, w)
            &&& exists|next: int|
                next >= turns.len() && #[trigger] follows(turns, rs.last(), next, w)
        }),
    decreases turns.len() - a,
{
    let rs = messages::windows_from(turns, a, w);
    let full = messages::full_end(turns.len() as int, a, w);
    lemma_fits(turns, a, full, w);
    let next = messages::next_start(turns, a, w);
    let first = (a, messages::end_of_window(turns, a, w));
    assert(next > a);
    assert(is_as_long_as_fits(turns, first, w));
    assert(follows(turns, first, next, w));
    if next < turns.len() {
        windows_slide_over_the_conversation(turns, next, w);
        let rest = messages::windows_from(turns, next, w);
        assert(rs == seq![first] + rest);
        assert forall|i: int| 0 <= i < rs.len() implies is_as_long_as_fits(
            turns,
            #[trigger] rs[i],
            w,
        ) by {
            if i > 0 {
                assert(rs[i] == rest[i - 1]);
            }
        }
        assert forall|i: int| 0 <= i < rs.len() - 1 implies follows(
            turns,
            #[trigger] rs[i],
            rs[i + 1].0,
            w,
        ) by {
            if i > 0 {
                assert(rs[i] == rest[i - 1]);
                assert(rs[i + 1] == rest[i]);
            }
        }
        assert(rs.last() == rest.last());
        let end = choose|end: int|
            end >= turns.len() && #[trigger] follows(turns, rest.last(), end, w);
        assert(follows(turns, rs.last(), end, w));
    } else {
        assert(rs == seq![first]);
        assert(rs.last() == first);
        assert(follows(turns, rs.last(), next, w));
    }
}

/// The windowing of a configuration: its windows, strides and budget, with a stride of at
/// least one turn.
pub proof fn windowings_are_as_configured(
    config: config::ConfigView,
    measure: spec_fn(Seq<char>) -> nat,
)
    ensures
        ({
            let w = messages::windowing(config, measure);
            &&& config.window_turns matches Some(n) ==> w.window == n
            &&& config.window_turns is None ==> w.window == 6
            &&& config.stride_turns matches Some(n) ==> w.stride == (if n == 0 {
                1
            } else {
                n as nat
            })
            &&& config.stride_turns is None ==> w.stride == 3
            &&& config.target_tokens matches Some(n) ==> w.max == n
            &&& w.measure == measure
        }),
{
}

} // verus!
