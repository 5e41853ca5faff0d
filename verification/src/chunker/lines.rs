//! Lines of a text, without their ends.

use crate::text;
use vstd::prelude::*;

verus! {

/// End of the content of the line that begins at `from`: its newline, and a carriage
/// return right before that, are left out.
pub open spec fn content_end(s: Seq<char>, from: int) -> int {
    let i = text::find_from(s, '\n', from);
    if i < s.len() && i > from && s[i - 1] == '\r' {
        i - 1
    } else {
        i
    }
}

/// The lines of `s` from position `from` on, as ranges of characters.
pub open spec fn line_ranges(s: Seq<char>, from: int) -> Seq<(int, int)>
    decreases s.len() - from,
{
    if from < 0 || from >= s.len() {
        Seq::empty()
    } else {
        let i = text::find_from(s, '\n', from);
        if i < from || i >= s.len() {
            seq![(from, content_end(s, from))]
        } else {
            seq![(from, content_end(s, from))] + line_ranges(s, i + 1)
        }
    }
}

/// Ranges of positions, as integers.
pub open spec fn range_views(v: Seq<(usize, usize)>) -> Seq<(int, int)> {
    Seq::new(v.len(), |i: int| (v[i].0 as int, v[i].1 as int))
}

/// The lines of a text as ranges of characters.
pub fn lines_of(cs: &[char]) -> (r: Vec<(usize, usize)>)
    ensures
        range_views(r@) == line_ranges(cs@, 0),
        forall|i: int| 0 <= i < r.len() ==> (#[trigger] r@[i]).0 <= r@[i].1 <= cs.len(),
{
    let mut out: Vec<(usize, usize)> = Vec::new();
    let mut pos: usize = 0;
    assert(range_views(out@) + line_ranges(cs@, 0) =~= line_ranges(cs@, 0));
    while pos < cs.len()
        invariant
            line_ranges(cs@, 0) == range_views(out@) + line_ranges(cs@, pos as int),
            forall|i: int| 0 <= i < out.len() ==> (#[trigger] out@[i]).0 <= out@[i].1 <= cs.len(),
        decreases cs.len() - pos,
    {
        let i = text::find_char_from(cs, '\n', pos);
        let e: usize = if i < cs.len() && i > pos && cs[i - 1] == '\r' {
            i - 1
        } else {
            i
        };
        let ghost before = range_views(out@);
        out.push((pos, e));
        assert(range_views(out@) =~= before.push((pos as int, e as int)));
        if i >= cs.len() {
            assert(before + seq![(pos as int, e as int)] =~= before.push((pos as int, e as int))
                + line_ranges(cs@, cs.len() as int));
            pos = cs.len();
        } else {
            assert(before + (seq![(pos as int, e as int)] + line_ranges(cs@, i + 1))
                =~= before.push((pos as int, e as int)) + line_ranges(cs@, i + 1));
            pos = i + 1;
        }
    }
    assert(range_views(out@) + line_ranges(cs@, pos as int) =~= range_views(out@));
    out
}

} // verus!
