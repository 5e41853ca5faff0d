//! What chunking promises of code: lines stay whole, and are packed as far as they fit.

use super::code;
use super::output;
use super::size_laws;
use crate::text;
use vstd::prelude::*;

verus! {

/// Whether a line begins at `p`.
pub open spec fn begins_a_line(s: Seq<char>, p: int) -> bool {
    p == 0 || (0 < p <= s.len() && s[p - 1] == '\n')
}

/// Whether a line ends at `p`, with its line break.
pub open spec fn ends_a_line(s: Seq<char>, p: int) -> bool {
    p == s.len() || (0 < p <= s.len() && s[p - 1] == '\n')
}

/// Whether `s[x..e]` is a line with its line break, if it has one.
pub open spec fn is_line(s: Seq<char>, x: int, e: int) -> bool {
    &&& 0 <= x < e <= s.len()
    &&& begins_a_line(s, x)
    &&& ends_a_line(s, e)
    &&& size_laws::is_unbroken(s, x, e - 1)
}

/// Whether no line within `s[a..b]` has more characters than the target.
pub open spec fn has_no_long_line(s: Seq<char>, target: nat, a: int, b: int) -> bool {
    forall|x: int, e: int| a <= x && e <= b && #[trigger] is_line(s, x, e) ==> e - x <= target
}

/// Whether `s[a..b]` is made of whole lines, none too long: either one line, or several within
/// the target in bytes; and the next line, unless it is too long itself, has no room any more.
pub open spec fn is_packed(s: Seq<char>, target: nat, a: int, b: int) -> bool {
    &&& 0 <= a < b <= s.len()
    &&& begins_a_line(s, a)
    &&& ends_a_line(s, b)
    &&& has_no_long_line(s, target, a, b)
    &&& is_line(s, a, b) || text::byte_len(s.subrange(a, b)) <= target
    &&& forall|e: int|
        #[trigger] is_line(s, b, e) && e - b <= target ==> text::byte_len(s.subrange(a, e)) > target
}

/// Whether `c` is right behind the last white space of `s[a..w]`, with more than half of the
/// bytes before it.
pub open spec fn is_good_cut(s: Seq<char>, a: int, w: int, c: int) -> bool {
    &&& a < c <= w
    &&& text::white_space(s[c - 1])
    &&& forall|i: int| c <= i < w ==> !text::white_space(#[trigger] s[i])
    &&& 2 * text::byte_len(s.subrange(a, c)) > text::byte_len(s.subrange(a, w))
}

/// How far a piece that begins at `a` may reach, in a line that goes on to `e`.
pub open spec fn reach(target: nat, a: int, e: int) -> int {
    if target == 0 || e - a <= target {
        e
    } else {
        a + target
    }
}

/// Whether `s[a..b]` is a piece of a line that is too long, the line going on to `e`: as many
/// characters as the target allows, or as far as a good cut among them.
pub open spec fn is_cut_from(s: Seq<char>, target: nat, a: int, b: int, x: int, e: int) -> bool {
    &&& is_line(s, x, e)
    &&& e - x > target
    &&& x <= a < b <= e
    &&& is_good_cut(s, a, reach(target, a, e), b) || (b == reach(target, a, e) && forall|c: int|
        !#[trigger] is_good_cut(s, a, reach(target, a, e), c))
}

/// Whether `s[a..b]` is a piece of some line that is too long.
pub open spec fn is_cut(s: Seq<char>, target: nat, a: int, b: int) -> bool {
    exists|x: int, e: int| #[trigger] is_cut_from(s, target, a, b, x, e)
}

/// Whether a range is either of the two.
pub open spec fn is_right(s: Seq<char>, target: nat, r: (int, int)) -> bool {
    is_packed(s, target, r.0, r.1) || is_cut(s, target, r.0, r.1)
}

proof fn lemma_line(s: Seq<char>, pos: int)
    requires
        0 <= pos < s.len(),
        begins_a_line(s, pos),
    ensures
        is_line(s, pos, code::line_end(s, pos)),
        forall|e: int| #[trigger] is_line(s, pos, e) ==> e == code::line_end(s, pos),
{
    text::lemma_find_from(s, '\n', pos);
    let end = code::line_end(s, pos);
    let i = text::find_from(s, '\n', pos);
    assert(is_line(s, pos, end));
    assert forall|e: int| #[trigger] is_line(s, pos, e) implies e == end by {
        if e < end {
            assert(s[e - 1] == '\n');
        }
        if e > end {
            assert(s[i] == '\n');
        }
    }
}

/// A line within a line is that line.
proof fn lemma_single_line(s: Seq<char>, target: nat, pos: int, end: int)
    requires
        is_line(s, pos, end),
        end - pos <= target,
    ensures
        has_no_long_line(s, target, pos, end),
{
    assert forall|x: int, e: int| pos <= x && e <= end && #[trigger] is_line(s, x, e) implies e - x
        <= target by {
        assert(e - x <= end - pos);
    }
}

proof fn lemma_pieces(s: Seq<char>, target: nat, x: int, pos: int, e: int)
    requires
        is_line(s, x, e),
        e - x > target,
        x <= pos <= e,
    ensures
        forall|i: int|
            0 <= i < code::line_pieces(s, target, pos, e).len() ==> is_cut_from(
                s,
                target,
                (#[trigger] code::line_pieces(s, target, pos, e)[i]).0,
                code::line_pieces(s, target, pos, e)[i].1,
                x,
                e,
            ),
    decreases e - pos,
{
    let all = code::line_pieces(s, target, pos, e);
    let c = code::cut_point(s, target, pos, e);
    if pos < c <= e {
        let w = code::window_end(target, pos, e);
        let last = code::after_last_space(s, pos, w);
        code::lemma_after_last_space(s, pos, w);
        assert(is_cut_from(s, target, pos, c, x, e)) by {
            if c == last && last > pos && 2 * text::byte_len(s.subrange(pos, last))
                > text::byte_len(s.subrange(pos, w)) {
                assert(is_good_cut(s, pos, w, c));
            } else {
                assert forall|d: int| !#[trigger] is_good_cut(s, pos, w, d) by {
                    if is_good_cut(s, pos, w, d) {
                        if d < last {
                            assert(!text::white_space(s[last - 1]));
                        }
                        if d > last {
                            assert(!text::white_space(s[d - 1]));
                        }
                    }
                }
            }
        }
        lemma_pieces(s, target, x, c, e);
        let rest = code::line_pieces(s, target, c, e);
        assert(all == seq![(pos, c)] + rest);
        assert forall|i: int| 0 <= i < all.len() implies is_cut_from(
            s,
            target,
            (#[trigger] all[i]).0,
            all[i].1,
            x,
            e,
        ) by {
            if i > 0 {
                assert(all[i] == rest[i - 1]);
            }
        }
    }
}

/// Whether the lines that are packed so far are as they should be.
spec fn is_pending(s: Seq<char>, target: nat, start: int, pos: int) -> bool {
    &&& ends_a_line(s, pos)
    &&& has_no_long_line(s, target, start, pos)
    &&& is_line(s, start, pos) || text::byte_len(s.subrange(start, pos)) <= target
}

#[verifier::rlimit(30)]
proof fn lemma_packed(s: Seq<char>, target: nat, start: int, pos: int)
    requires
        0 <= start <= pos <= s.len(),
        begins_a_line(s, start) || start == s.len(),
        begins_a_line(s, pos) || pos == s.len(),
        start < pos ==> is_pending(s, target, start, pos),
    ensures
        forall|i: int|
            0 <= i < code::packed(s, target, start, pos).len() ==> is_right(
                s,
                target,
                #[trigger] code::packed(s, target, start, pos)[i],
            ),
    decreases s.len() - pos,
{
    let all = code::packed(s, target, start, pos);
    let head = code::flushed(start, pos);
    if pos == s.len() {
        if start < pos {
            assert forall|e: int| #[trigger] is_line(s, pos, e) && e - pos
                <= target implies text::byte_len(s.subrange(start, e)) > target by {}
            assert(is_packed(s, target, start, pos));
        }
        assert(all == head);
        assert forall|i: int| 0 <= i < all.len() implies is_right(s, target, #[trigger] all[i]) by {
            assert(all[i] == (start, pos));
        }
    } else {
        lemma_line(s, pos);
        let e = code::line_end(s, pos);
        if e - pos > target {
            if start < pos {
                assert(is_packed(s, target, start, pos));
            }
            lemma_pieces(s, target, pos, pos, e);
            lemma_packed(s, target, e, e);
            let pieces = code::line_pieces(s, target, pos, e);
            let rest = code::packed(s, target, e, e);
            assert(all == head + pieces + rest);
            assert forall|i: int| 0 <= i < all.len() implies is_right(
                s,
                target,
                #[trigger] all[i],
            ) by {
                if i < head.len() {
                    assert(all[i] == (start, pos));
                } else if i < head.len() + pieces.len() {
                    let r = pieces[i - head.len()];
                    assert(all[i] == r);
                    assert(is_cut_from(s, target, r.0, r.1, pos, e));
                } else {
                    assert(all[i] == rest[i - head.len() - pieces.len()]);
                }
            }
        } else {
            lemma_single_line(s, target, pos, e);
            if start < pos && text::byte_len(s.subrange(start, pos)) + text::byte_len(
                s.subrange(pos, e),
            ) > target {
                lemma_sum(s, start, pos, e);
                assert(is_packed(s, target, start, pos));
                lemma_packed(s, target, pos, e);
                let rest = code::packed(s, target, pos, e);
                assert(all == head + rest);
                assert forall|i: int| 0 <= i < all.len() implies is_right(
                    s,
                    target,
                    #[trigger] all[i],
                ) by {
                    if i < head.len() {
                        assert(all[i] == (start, pos));
                    } else {
                        assert(all[i] == rest[i - head.len()]);
                    }
                }
            } else {
                if start < pos {
                    lemma_sum(s, start, pos, e);
                    assert forall|x: int, y: int|
                        start <= x && y <= e && #[trigger] is_line(s, x, y) implies y - x
                        <= target by {
                        if x < pos {
                            assert(s[pos - 1] == '\n');
                            if y > pos {
                                assert(s[pos - 1] != '\n');
                            }
                        }
                    }
                }
                lemma_packed(s, target, start, e);
                assert(all == code::packed(s, target, start, e));
            }
        }
    }
}

proof fn lemma_sum(s: Seq<char>, a: int, b: int, c: int)
    requires
        0 <= a <= b <= c <= s.len(),
    ensures
        text::byte_len(s.subrange(a, c)) == text::byte_len(s.subrange(a, b)) + text::byte_len(
            s.subrange(b, c),
        ),
{
    assert(s.subrange(a, c) =~= s.subrange(a, b) + s.subrange(b, c));
    text::lemma_byte_len_concat(s.subrange(a, b), s.subrange(b, c));
}

/// Code is packed line by line. Every chunk is made of whole lines, as many as fit into the
/// target in bytes; only a line with more characters than the target is cut, behind white space
/// where that leaves more than half of a piece, and else after as many characters.
pub proof fn lines_are_packed_as_far_as_they_fit(s: Seq<char>, target: nat, i: int)
    requires
        0 <= i < code::code_ranges(s, target).len(),
    ensures
        is_right(s, target, code::code_ranges(s, target)[i]),
{
    lemma_packed(s, target, 0, 0);
}

/// A chunk of code is the stretch of the text that it is packed from, with its place in the text
/// and its number.
pub proof fn chunks_of_code_are_those_stretches(
    resource_id: Seq<char>,
    s: Seq<char>,
    target: nat,
    block_seq: u32,
    i: int,
)
    requires
        0 <= i < code::code_chunks(resource_id, s, target, block_seq).len(),
    ensures
        ({
            let c = code::code_chunks(resource_id, s, target, block_seq)[i];
            let r = code::code_ranges(s, target)[i];
            &&& code::code_chunks(resource_id, s, target, block_seq).len() == code::code_ranges(
                s,
                target,
            ).len()
            &&& output::is_slice(s, c, r.0, r.1)
            &&& c.block_seq == block_seq
            &&& c.seq_in_block == i as u32
            &&& c.id == crate::ids::chunk_id_of(resource_id, block_seq, c.text, i as u32)
            &&& c.heading_path.len() == 0
            &&& c.window_block_seqs.len() == 0
        }),
{
    code::code_ranges_tile_the_text(s, target);
    code::lemma_tiles_bounds(code::code_ranges(s, target), 0, s.len() as int, i);
}

} // verus!
