//! The code chunker: packs lines as long as they stay within the target in bytes, and cuts a
//! line of more characters than the target into pieces. So no chunk has more characters than
//! the target.

use super::config::ChunkerConfig;
use super::output;
use super::output::ChunkOutput;
use crate::error::Error;
use crate::text;
use crate::types::Span;
use vstd::prelude::*;
use vstd::slice::slice_subrange;

verus! {

// ---------------------------------------------------------------------------
// Where the cuts fall
// ---------------------------------------------------------------------------
/// End of the line that begins at `from`, past its newline.
pub open spec fn line_end(s: Seq<char>, from: int) -> int {
    let i = text::find_from(s, '\n', from);
    if i < s.len() {
        i + 1
    } else {
        s.len() as int
    }
}

/// Position right after the last white space in `s[lo..hi]`, or `lo` where there is none.
pub open spec fn after_last_space(s: Seq<char>, lo: int, hi: int) -> int
    decreases hi - lo,
{
    if hi <= lo {
        lo
    } else if text::white_space(s[hi - 1]) {
        hi
    } else {
        after_last_space(s, lo, hi - 1)
    }
}

/// End of the stretch of at most `target` characters from `pos`; a target of zero sets no
/// limit.
pub open spec fn window_end(target: nat, pos: int, end: int) -> int {
    if target == 0 || end - pos <= target {
        end
    } else {
        pos + target
    }
}

/// Where to cut an overlong line that goes on from `pos`: after the last white space of
/// the window if that leaves more than half of the window's bytes, else at its end.
pub open spec fn cut_point(s: Seq<char>, target: nat, pos: int, end: int) -> int {
    let w = window_end(target, pos, end);
    let c = after_last_space(s, pos, w);
    if c > pos && 2 * text::byte_len(s.subrange(pos, c)) > text::byte_len(s.subrange(pos, w)) {
        c
    } else {
        w
    }
}

/// The pieces of the overlong line `s[pos..end]`.
pub open spec fn line_pieces(s: Seq<char>, target: nat, pos: int, end: int) -> Seq<(int, int)>
    decreases end - pos,
{
    let c = cut_point(s, target, pos, end);
    if pos < c <= end {
        seq![(pos, c)] + line_pieces(s, target, c, end)
    } else {
        Seq::empty()
    }
}

/// The stretch `s[a..b]`, unless it is empty.
pub open spec fn flushed(a: int, b: int) -> Seq<(int, int)> {
    if a < b {
        seq![(a, b)]
    } else {
        Seq::empty()
    }
}

/// The chunks of `s` as ranges of characters, where `s[start..pos]` is packed but not yet
/// emitted and `pos` begins a line. Lines are packed while the chunk stays within `target`
/// bytes; a line of more than `target` characters is cut into pieces of its own.
pub open spec fn packed(s: Seq<char>, target: nat, start: int, pos: int) -> Seq<(int, int)>
    decreases s.len() - pos,
{
    if pos < 0 || pos >= s.len() {
        flushed(start, pos)
    } else {
        let e = line_end(s, pos);
        if e <= pos {
            Seq::empty()
        } else if e - pos > target {
            flushed(start, pos) + line_pieces(s, target, pos, e) + packed(s, target, e, e)
        } else if start < pos && text::byte_len(s.subrange(start, pos)) + text::byte_len(
            s.subrange(pos, e),
        ) > target {
            flushed(start, pos) + packed(s, target, pos, e)
        } else {
            packed(s, target, start, e)
        }
    }
}

/// The ranges that the code chunker divides `s` into.
pub open spec fn code_ranges(s: Seq<char>, target: nat) -> Seq<(int, int)> {
    packed(s, target, 0, 0)
}

/// The chunk of the characters `s[r.0..r.1]`.
pub open spec fn slice_chunk(s: Seq<char>, r: (int, int), block_seq: u32) -> output::ChunkView {
    output::plain(
        s.subrange(r.0, r.1),
        text::byte_offset(s, r.0),
        text::byte_offset(s, r.1),
        Seq::empty(),
        block_seq,
    )
}

/// The chunks of the given ranges of `s`.
pub open spec fn slice_chunks(s: Seq<char>, rs: Seq<(int, int)>, block_seq: u32) -> Seq<
    output::ChunkView,
> {
    Seq::new(rs.len(), |i: int| slice_chunk(s, rs[i], block_seq))
}

/// What the code chunker makes of a text.
pub open spec fn code_chunks(
    resource_id: Seq<char>,
    s: Seq<char>,
    target: nat,
    block_seq: u32,
) -> Seq<output::ChunkView> {
    output::numbered(resource_id, slice_chunks(s, code_ranges(s, target), block_seq))
}

// ---------------------------------------------------------------------------
// Laws
// ---------------------------------------------------------------------------
/// The ranges are non-empty, in order and adjacent, from `a` to `b`.
pub open spec fn tiles(rs: Seq<(int, int)>, a: int, b: int) -> bool {
    &&& rs.len() == 0 ==> a == b
    &&& rs.len() > 0 ==> rs[0].0 == a && rs.last().1 == b
    &&& forall|i: int| 0 <= i < rs.len() ==> (#[trigger] rs[i]).0 < rs[i].1
    &&& forall|i: int, j: int|
        #![trigger rs[i], rs[j]]
        0 <= i && j == i + 1 && j < rs.len() ==> rs[i].1 == rs[j].0
}

pub proof fn lemma_tiles_concat(x: Seq<(int, int)>, y: Seq<(int, int)>, a: int, b: int, c: int)
    requires
        tiles(x, a, b),
        tiles(y, b, c),
    ensures
        tiles(x + y, a, c),
{
    let z = x + y;
    assert forall|i: int, j: int|
        #![trigger z[i], z[j]]
        0 <= i && j == i + 1 && j < z.len() implies z[i].1 == z[j].0 by {
        if j < x.len() {
            assert(x[i].1 == x[j].0);
        } else if i >= x.len() {
            assert(y[i - x.len()].1 == y[j - x.len()].0);
        } else {
            assert(z[i] == x.last());
            assert(z[j] == y[0]);
        }
    }
    if y.len() > 0 {
        assert(z.last() == y.last());
    } else {
        assert(z =~= x);
    }
    if x.len() > 0 {
        assert(z[0] == x[0]);
    } else {
        assert(z =~= y);
    }
}

pub(super) proof fn lemma_after_last_space(s: Seq<char>, lo: int, hi: int)
    requires
        0 <= lo <= hi <= s.len(),
    ensures
        lo <= after_last_space(s, lo, hi) <= hi,
        after_last_space(s, lo, hi) > lo ==> text::white_space(s[after_last_space(s, lo, hi) - 1]),
        forall|i: int|
            after_last_space(s, lo, hi) <= i < hi ==> !text::white_space(#[trigger] s[i]),
    decreases hi - lo,
{
    if lo < hi && !text::white_space(s[hi - 1]) {
        lemma_after_last_space(s, lo, hi - 1);
    }
}

proof fn lemma_line_end(s: Seq<char>, from: int)
    requires
        0 <= from < s.len(),
    ensures
        from < line_end(s, from) <= s.len(),
{
    text::lemma_find_from(s, '\n', from);
}

proof fn lemma_cut_point(s: Seq<char>, target: nat, pos: int, end: int)
    requires
        0 <= pos < end <= s.len(),
    ensures
        pos < cut_point(s, target, pos, end) <= end,
        target > 0 ==> cut_point(s, target, pos, end) - pos <= target,
{
    lemma_after_last_space(s, pos, window_end(target, pos, end));
}

proof fn lemma_line_pieces(s: Seq<char>, target: nat, pos: int, end: int)
    requires
        0 <= pos <= end <= s.len(),
    ensures
        tiles(line_pieces(s, target, pos, end), pos, end),
        forall|i: int|
            0 <= i < line_pieces(s, target, pos, end).len() && target > 0 ==> (#[trigger] line_pieces(
                s,
                target,
                pos,
                end,
            )[i]).1 - line_pieces(s, target, pos, end)[i].0 <= target,
    decreases end - pos,
{
    if pos < end {
        lemma_cut_point(s, target, pos, end);
        let c = cut_point(s, target, pos, end);
        lemma_line_pieces(s, target, c, end);
        lemma_tiles_concat(seq![(pos, c)], line_pieces(s, target, c, end), pos, c, end);
    } else {
        let c = cut_point(s, target, pos, end);
        assert(window_end(target, pos, end) == end);
        assert(c <= pos);
    }
}

proof fn lemma_packed(s: Seq<char>, target: nat, start: int, pos: int)
    requires
        0 <= start <= pos <= s.len(),
    ensures
        tiles(packed(s, target, start, pos), start, s.len() as int),
        target > 0 && pos - start <= target ==> forall|i: int|
            0 <= i < packed(s, target, start, pos).len() ==> (#[trigger] packed(
                s,
                target,
                start,
                pos,
            )[i]).1 - packed(s, target, start, pos)[i].0 <= target,
    decreases s.len() - pos,
{
    if pos < s.len() {
        lemma_line_end(s, pos);
        let e = line_end(s, pos);
        if e - pos > target {
            lemma_line_pieces(s, target, pos, e);
            lemma_packed(s, target, e, e);
            lemma_tiles_concat(flushed(start, pos), line_pieces(s, target, pos, e), start, pos, e);
            lemma_tiles_concat(
                flushed(start, pos) + line_pieces(s, target, pos, e),
                packed(s, target, e, e),
                start,
                e,
                s.len() as int,
            );
        } else if start < pos && text::byte_len(s.subrange(start, pos)) + text::byte_len(
            s.subrange(pos, e),
        ) > target {
            lemma_packed(s, target, pos, e);
            lemma_tiles_concat(
                flushed(start, pos),
                packed(s, target, pos, e),
                start,
                pos,
                s.len() as int,
            );
        } else {
            lemma_packed(s, target, start, e);
            if start < pos {
                text::lemma_byte_len_bounds(s.subrange(start, pos));
                text::lemma_byte_len_bounds(s.subrange(pos, e));
            }
        }
    }
}

/// The code chunker loses and repeats nothing: its ranges cover the text from end to end,
/// in order and without overlap.
pub proof fn code_ranges_tile_the_text(s: Seq<char>, target: nat)
    ensures
        tiles(code_ranges(s, target), 0, s.len() as int),
{
    lemma_packed(s, target, 0, 0);
}

/// No chunk is larger than the target.
pub proof fn code_ranges_respect_the_target(s: Seq<char>, target: nat, i: int)
    requires
        target > 0,
        0 <= i < code_ranges(s, target).len(),
    ensures
        code_ranges(s, target)[i].1 - code_ranges(s, target)[i].0 <= target,
{
    lemma_packed(s, target, 0, 0);
}

/// The texts of all chunks, in order, make up the given text.
pub open spec fn chunk_texts(cs: Seq<output::ChunkView>) -> Seq<char>
    decreases cs.len(),
{
    if cs.len() == 0 {
        Seq::empty()
    } else {
        chunk_texts(cs.drop_last()) + cs.last().text
    }
}

proof fn lemma_texts_of_tiles(s: Seq<char>, rs: Seq<(int, int)>, b: int, cs: Seq<output::ChunkView>)
    requires
        tiles(rs, 0, b),
        0 <= b <= s.len(),
        cs.len() == rs.len(),
        forall|i: int| 0 <= i < cs.len() ==> (#[trigger] cs[i]).text == s.subrange(rs[i].0, rs[i].1),
        forall|i: int| 0 <= i < rs.len() ==> 0 <= (#[trigger] rs[i]).0 && rs[i].1 <= s.len(),
    ensures
        chunk_texts(cs) == s.take(b),
    decreases rs.len(),
{
    if rs.len() == 0 {
        assert(s.take(0) =~= Seq::<char>::empty());
    } else {
        let rs1 = rs.drop_last();
        let a = rs.last().0;
        if rs1.len() > 0 {
            assert(rs[rs.len() - 2].1 == rs[rs.len() - 1].0);
        }
        assert forall|i: int, j: int|
            #![trigger rs1[i], rs1[j]]
            0 <= i && j == i + 1 && j < rs1.len() implies rs1[i].1 == rs1[j].0 by {
            assert(rs[i].1 == rs[j].0);
        }
        assert forall|i: int| 0 <= i < rs1.len() implies (#[trigger] rs1[i]).0 < rs1[i].1 by {
            assert(rs[i].0 < rs[i].1);
        }
        assert forall|i: int| 0 <= i < rs1.len() implies 0 <= (#[trigger] rs1[i]).0 && rs1[i].1
            <= s.len() by {
            assert(0 <= rs[i].0);
        }
        assert(0 <= rs[rs.len() - 1].0);
        assert forall|i: int| 0 <= i < cs.drop_last().len() implies (#[trigger] cs.drop_last()[i]).text
            == s.subrange(rs1[i].0, rs1[i].1) by {
            assert(cs[i].text == s.subrange(rs[i].0, rs[i].1));
        }
        lemma_texts_of_tiles(s, rs1, a, cs.drop_last());
        assert(cs[cs.len() - 1].text == s.subrange(a, b));
        assert(s.take(b) =~= s.take(a) + s.subrange(a, b));
    }
}

pub proof fn lemma_tiles_bounds(rs: Seq<(int, int)>, a: int, b: int, i: int)
    requires
        tiles(rs, a, b),
        0 <= i < rs.len(),
    ensures
        a <= rs[i].0 < rs[i].1 <= b,
    decreases rs.len(),
{
    lemma_tiles_left(rs, a, b, i);
    lemma_tiles_right(rs, a, b, i);
}

proof fn lemma_tiles_left(rs: Seq<(int, int)>, a: int, b: int, i: int)
    requires
        tiles(rs, a, b),
        0 <= i < rs.len(),
    ensures
        a <= rs[i].0,
    decreases i,
{
    if i > 0 {
        lemma_tiles_left(rs, a, b, i - 1);
        assert(rs[i - 1].1 == rs[i].0);
        assert(rs[i - 1].0 < rs[i - 1].1);
    }
}

proof fn lemma_tiles_right(rs: Seq<(int, int)>, a: int, b: int, i: int)
    requires
        tiles(rs, a, b),
        0 <= i < rs.len(),
    ensures
        rs[i].1 <= b,
    decreases rs.len() - i,
{
    if i < rs.len() - 1 {
        lemma_tiles_right(rs, a, b, i + 1);
        assert(rs[i].1 == rs[i + 1].0);
        assert(rs[i + 1].0 < rs[i + 1].1);
    }
}

proof fn lemma_tiles_in_order(rs: Seq<(int, int)>, a: int, b: int, i: int, j: int)
    requires
        tiles(rs, a, b),
        0 <= i < j < rs.len(),
    ensures
        rs[i].1 <= rs[j].0,
    decreases j - i,
{
    if i + 1 < j {
        lemma_tiles_in_order(rs, a, b, i, j - 1);
        assert(rs[j - 1].0 < rs[j - 1].1);
    }
    assert(rs[j - 1].1 == rs[j].0);
}

/// The chunks come one after the other.
pub proof fn code_chunks_are_in_sequence(
    resource_id: Seq<char>,
    s: Seq<char>,
    target: nat,
    block_seq: u32,
)
    ensures
        output::in_sequence(code_chunks(resource_id, s, target, block_seq)),
{
    let cs = code_chunks(resource_id, s, target, block_seq);
    let rs = code_ranges(s, target);
    code_ranges_tile_the_text(s, target);
    assert forall|i: int, j: int| 0 <= i < j < cs.len() implies (#[trigger] cs[i]).end <= (
    #[trigger] cs[j]).start by {
        lemma_code_slice(resource_id, s, target, block_seq, i);
        lemma_code_slice(resource_id, s, target, block_seq, j);
        lemma_tiles_in_order(rs, 0, s.len() as int, i, j);
        lemma_tiles_bounds(rs, 0, s.len() as int, i);
        lemma_tiles_bounds(rs, 0, s.len() as int, j);
        text::lemma_byte_len_subrange(s, rs[i].1, rs[j].0);
    }
}

/// No chunk has more characters than the target.
pub proof fn code_chunks_respect_the_target(
    resource_id: Seq<char>,
    s: Seq<char>,
    target: nat,
    block_seq: u32,
    i: int,
)
    requires
        target > 0,
        0 <= i < code_chunks(resource_id, s, target, block_seq).len(),
    ensures
        code_chunks(resource_id, s, target, block_seq)[i].text.len() <= target,
{
    code_ranges_respect_the_target(s, target, i);
    code_ranges_tile_the_text(s, target);
    lemma_tiles_bounds(code_ranges(s, target), 0, s.len() as int, i);
    lemma_code_slice(resource_id, s, target, block_seq, i);
}

/// Every chunk is exactly the slice of the text that its span names, every character lies
/// in one, and the chunks' texts put together are the text.
pub proof fn code_chunks_are_lossless(
    resource_id: Seq<char>,
    s: Seq<char>,
    target: nat,
    block_seq: u32,
)
    ensures
        chunk_texts(code_chunks(resource_id, s, target, block_seq)) == s,
        output::exact_slices(s, code_chunks(resource_id, s, target, block_seq)),
        forall|k: int|
            0 <= k < s.len() ==> output::covered(
                s,
                code_chunks(resource_id, s, target, block_seq),
                k,
            ),
{
    let cs = code_chunks(resource_id, s, target, block_seq);
    let rs = code_ranges(s, target);
    code_ranges_tile_the_text(s, target);
    assert forall|i: int| 0 <= i < rs.len() implies 0 <= (#[trigger] rs[i]).0 && rs[i].1
        <= s.len() by {
        lemma_tiles_bounds(rs, 0, s.len() as int, i);
    }
    lemma_texts_of_tiles(s, rs, s.len() as int, cs);
    assert(s.take(s.len() as int) =~= s);
    assert forall|i: int| 0 <= i < cs.len() implies #[trigger] output::is_some_slice(s, cs[i]) by {
        lemma_code_slice(resource_id, s, target, block_seq, i);
    }
    assert forall|k: int| 0 <= k < s.len() implies output::covered(s, cs, k) by {
        let i = lemma_tile_of(rs, s.len() as int, k, rs.len() as int);
        lemma_code_slice(resource_id, s, target, block_seq, i);
    }
}

proof fn lemma_code_slice(
    resource_id: Seq<char>,
    s: Seq<char>,
    target: nat,
    block_seq: u32,
    i: int,
)
    requires
        0 <= i < code_ranges(s, target).len(),
    ensures
        output::is_slice(
            s,
            code_chunks(resource_id, s, target, block_seq)[i],
            code_ranges(s, target)[i].0,
            code_ranges(s, target)[i].1,
        ),
{
    code_ranges_tile_the_text(s, target);
    lemma_tiles_bounds(code_ranges(s, target), 0, s.len() as int, i);
}

/// The tile that holds `k`, among the first `n`, where `k` lies before their end.
pub(super) proof fn lemma_tile_of(rs: Seq<(int, int)>, b: int, k: int, n: int) -> (i: int)
    requires
        tiles(rs, 0, b),
        0 < n <= rs.len() || (n == 0 && rs.len() == 0),
        0 <= k < (if n > 0 {
            rs[n - 1].1
        } else {
            b
        }),
    ensures
        0 <= i < rs.len(),
        rs[i].0 <= k < rs[i].1,
    decreases n,
{
    if rs[n - 1].0 <= k {
        n - 1
    } else {
        assert(n > 1);
        assert(rs[n - 2].1 == rs[n - 1].0);
        lemma_tile_of(rs, b, k, n - 1)
    }
}

// ---------------------------------------------------------------------------
// The chunker
// ---------------------------------------------------------------------------
/// Bytes of `cs[a..b]`.
pub fn range_bytes(cs: &[char], a: usize, b: usize) -> (n: usize)
    requires
        a <= b <= cs.len(),
        text::byte_len(cs@) <= usize::MAX,
    ensures
        n == text::byte_len(cs@.subrange(a as int, b as int)),
{
    let mut n: usize = 0;
    let mut i: usize = a;
    assert(cs@.subrange(a as int, a as int) =~= Seq::<char>::empty());
    while i < b
        invariant
            a <= i <= b <= cs.len(),
            text::byte_len(cs@) <= usize::MAX,
            n == text::byte_len(cs@.subrange(a as int, i as int)),
        decreases b - i,
    {
        proof {
            text::lemma_byte_len_push(cs@.subrange(a as int, i as int), cs@[i as int]);
            assert(cs@.subrange(a as int, i as int).push(cs@[i as int]) =~= cs@.subrange(
                a as int,
                i + 1,
            ));
            text::lemma_byte_len_subrange(cs@, a as int, i + 1);
        }
        n += text::width_of(cs[i]);
        i += 1;
    }
    n
}

/// Appends the chunk of `cs[a..b]`, whose byte range is given.
fn push_slice(
    chunks: &mut Vec<ChunkOutput>,
    cs: &[char],
    a: usize,
    b: usize,
    a_byte: usize,
    b_byte: usize,
    block_seq: u32,
)
    requires
        a < b <= cs.len(),
        a_byte == text::byte_offset(cs@, a as int),
        b_byte == text::byte_offset(cs@, b as int),
    ensures
        output::chunk_views(final(chunks)@) == output::chunk_views(old(chunks)@).push(
            output::placed(
                slice_chunk(cs@, (a as int, b as int), block_seq),
                old(chunks)@.len() as int,
            ),
        ),
{
    let t = text::string_of(slice_subrange(cs, a, b));
    let path: Vec<String> = Vec::new();
    assert(text::views(path@) =~= Seq::<Seq<char>>::empty());
    let n: usize = chunks.len();
    chunks.push(
        ChunkOutput::placeholder(t, Span::new(a_byte, b_byte), path, block_seq, n as u32),
    );
    assert(output::chunk_views(chunks@) =~= output::chunk_views(old(chunks)@).push(
        output::placed(slice_chunk(cs@, (a as int, b as int), block_seq), n as int),
    ));
}

proof fn lemma_slice_chunks_push(s: Seq<char>, rs: Seq<(int, int)>, r: (int, int), block_seq: u32)
    ensures
        output::stamped(slice_chunks(s, rs.push(r), block_seq)) == output::stamped(
            slice_chunks(s, rs, block_seq),
        ).push(output::placed(slice_chunk(s, r, block_seq), rs.len() as int)),
        slice_chunks(s, rs, block_seq).len() == rs.len(),
{
    assert(output::stamped(slice_chunks(s, rs.push(r), block_seq)) =~= output::stamped(
        slice_chunks(s, rs, block_seq),
    ).push(output::placed(slice_chunk(s, r, block_seq), rs.len() as int)));
}

/// Where to cut the overlong line that goes on from `pos`.
fn find_cut(cs: &[char], target: usize, pos: usize, end: usize) -> (c: usize)
    requires
        pos < end <= cs.len(),
        text::byte_len(cs@) <= usize::MAX,
    ensures
        c == cut_point(cs@, target as nat, pos as int, end as int),
        pos < c <= end,
{
    proof {
        lemma_cut_point(cs@, target as nat, pos as int, end as int);
    }
    let w: usize = if target == 0 || end - pos <= target {
        end
    } else {
        pos + target
    };
    let mut c: usize = w;
    while c > pos && !text::is_white_space(cs[c - 1])
        invariant
            pos <= c <= w <= cs.len(),
            after_last_space(cs@, pos as int, w as int) == after_last_space(
                cs@,
                pos as int,
                c as int,
            ),
        decreases c,
    {
        c -= 1;
    }
    if c > pos {
        let head: usize = range_bytes(cs, pos, c);
        let whole: usize = range_bytes(cs, pos, w);
        proof {
            let win = cs@.subrange(pos as int, w as int);
            text::lemma_byte_len_subrange(win, 0, c - pos);
            assert(win.subrange(0, c - pos) =~= cs@.subrange(pos as int, c as int));
            assert(win.take(0) =~= Seq::<char>::empty());
        }
        if head > whole - head {
            return c;
        }
    }
    w
}

/// The code chunker: packs whole lines into chunks of at most the target, and cuts longer
/// lines at character boundaries, after white space where that is not wasteful.
#[verifier::rlimit(30)]
pub fn chunk_code(resource_id: &str, markdown: &str, config: &ChunkerConfig, block_seq: u32) -> (r:
    Result<Vec<ChunkOutput>, Error>)
    ensures
        r is Ok,
        output::chunk_views(r->Ok_0@) == code_chunks(
            resource_id@,
            markdown@,
            config@.target(),
            block_seq,
        ),
{
    let target: usize = config.resolved_target_tokens();
    let total: usize = text::str_byte_len(markdown);
    let v = text::chars_of(markdown);
    let cs = v.as_slice();
    let mut chunks: Vec<ChunkOutput> = Vec::new();
    let ghost mut done: Seq<(int, int)> = Seq::empty();
    let mut start: usize = 0;
    let mut start_byte: usize = 0;
    let mut pos: usize = 0;
    let mut pos_byte: usize = 0;
    proof {
        assert(cs@.take(0) =~= Seq::<char>::empty());
        assert(output::chunk_views(chunks@) =~= output::stamped(slice_chunks(cs@, done, block_seq)));
        assert(done + packed(cs@, target as nat, 0, 0) =~= code_ranges(cs@, target as nat));
    }
    while pos < cs.len()
        invariant
            start <= pos <= cs.len(),
            text::byte_len(cs@) <= usize::MAX,
            start_byte == text::byte_offset(cs@, start as int),
            pos_byte == text::byte_offset(cs@, pos as int),
            code_ranges(cs@, target as nat) == done + packed(
                cs@,
                target as nat,
                start as int,
                pos as int,
            ),
            output::chunk_views(chunks@) == output::stamped(slice_chunks(cs@, done, block_seq)),
        decreases cs.len() - pos,
    {
        let ghost ranges = code_ranges(cs@, target as nat);
        let i = text::find_char_from(cs, '\n', pos);
        let e: usize = if i < cs.len() {
            i + 1
        } else {
            i
        };
        proof {
            lemma_line_end(cs@, pos as int);
            text::lemma_byte_len_subrange(cs@, pos as int, e as int);
            text::lemma_byte_len_subrange(cs@, start as int, pos as int);
            text::lemma_byte_len_subrange(cs@, start as int, e as int);
        }
        let line_bytes: usize = range_bytes(cs, pos, e);
        let e_byte: usize = pos_byte + line_bytes;
        let packed_bytes: usize = pos_byte - start_byte;
        if e - pos > target {
            let ghost rest = packed(cs@, target as nat, e as int, e as int);
            let ghost pieces = line_pieces(cs@, target as nat, pos as int, e as int);
            assert(ranges == done + (flushed(start as int, pos as int) + pieces + rest));
            if start < pos {
                push_slice(&mut chunks, cs, start, pos, start_byte, pos_byte, block_seq);
                proof {
                    lemma_slice_chunks_push(cs@, done, (start as int, pos as int), block_seq);
                    done = done.push((start as int, pos as int));
                }
            }
            proof {
                assert(ranges =~= done + pieces + rest);
            }
            let mut p: usize = pos;
            let mut p_byte: usize = pos_byte;
            while p < e
                invariant
                    pos <= p <= e <= cs.len(),
                    text::byte_len(cs@) <= usize::MAX,
                    p_byte == text::byte_offset(cs@, p as int),
                    rest == packed(cs@, target as nat, e as int, e as int),
                    ranges == done + line_pieces(cs@, target as nat, p as int, e as int) + rest,
                    output::chunk_views(chunks@) == output::stamped(
                        slice_chunks(cs@, done, block_seq),
                    ),
                decreases e - p,
            {
                let c = find_cut(cs, target, p, e);
                let piece_bytes: usize = range_bytes(cs, p, c);
                proof {
                    text::lemma_byte_len_subrange(cs@, p as int, c as int);
                }
                let c_byte: usize = p_byte + piece_bytes;
                push_slice(&mut chunks, cs, p, c, p_byte, c_byte, block_seq);
                proof {
                    lemma_slice_chunks_push(cs@, done, (p as int, c as int), block_seq);
                    let tail = line_pieces(cs@, target as nat, c as int, e as int);
                    assert(done + (seq![(p as int, c as int)] + tail) + rest =~= done.push(
                        (p as int, c as int),
                    ) + tail + rest);
                    done = done.push((p as int, c as int));
                }
                p = c;
                p_byte = c_byte;
            }
            proof {
                assert(line_pieces(cs@, target as nat, e as int, e as int) =~= Seq::empty());
                assert(done + line_pieces(cs@, target as nat, e as int, e as int) + rest =~= done
                    + rest);
            }
            start = e;
            start_byte = e_byte;
        } else if start < pos && packed_bytes + line_bytes > target {
            let ghost rest = packed(cs@, target as nat, pos as int, e as int);
            assert(ranges == done + (flushed(start as int, pos as int) + rest));
            push_slice(&mut chunks, cs, start, pos, start_byte, pos_byte, block_seq);
            proof {
                lemma_slice_chunks_push(cs@, done, (start as int, pos as int), block_seq);
                assert(done + (flushed(start as int, pos as int) + rest) =~= done.push(
                    (start as int, pos as int),
                ) + rest);
                done = done.push((start as int, pos as int));
            }
            start = pos;
            start_byte = pos_byte;
        }
        pos = e;
        pos_byte = e_byte;
    }
    if start < pos {
        push_slice(&mut chunks, cs, start, pos, start_byte, pos_byte, block_seq);
        proof {
            lemma_slice_chunks_push(cs@, done, (start as int, pos as int), block_seq);
            assert(done + flushed(start as int, pos as int) =~= done.push(
                (start as int, pos as int),
            ));
            done = done.push((start as int, pos as int));
        }
    } else {
        assert(done + flushed(start as int, pos as int) =~= done);
    }
    assert(done == code_ranges(cs@, target as nat));
    output::finalize_ids(resource_id, &mut chunks);
    Ok(chunks)
}

} // verus!
