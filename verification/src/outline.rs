//! Heading outlines: which headings enclose a place in a document.

use crate::block::{Block, BlockKind};
use crate::text;
use vstd::prelude::*;

verus! {

/// A heading that encloses the current place.
#[derive(Debug, Clone)]
pub struct OpenHeading {
    pub level: u8,
    pub text: String,
}

/// A heading as a mathematical value.
pub struct HeadingView {
    pub level: u8,
    pub text: Seq<char>,
}

impl View for OpenHeading {
    type V = HeadingView;

    open spec fn view(&self) -> HeadingView {
        HeadingView { level: self.level, text: self.text@ }
    }
}

/// The views of the open headings.
pub open spec fn open_views(v: Seq<OpenHeading>) -> Seq<HeadingView> {
    Seq::new(v.len(), |i: int| v[i]@)
}

/// The headings that stay open when one of the given level begins: those of a smaller
/// level.
pub open spec fn closed_to(open: Seq<HeadingView>, level: u8) -> Seq<HeadingView>
    decreases open.len(),
{
    if open.len() == 0 || open.last().level < level {
        open
    } else {
        closed_to(open.drop_last(), level)
    }
}

/// The open headings after `h` has begun.
pub open spec fn entered(open: Seq<HeadingView>, h: HeadingView) -> Seq<HeadingView> {
    closed_to(open, h.level).push(h)
}

/// The open headings after all of `headings`.
pub open spec fn outline(headings: Seq<HeadingView>) -> Seq<HeadingView>
    decreases headings.len(),
{
    if headings.len() == 0 {
        Seq::empty()
    } else {
        entered(outline(headings.drop_last()), headings.last())
    }
}

/// The texts of headings, outermost first.
pub open spec fn path_of(open: Seq<HeadingView>) -> Seq<Seq<char>> {
    Seq::new(open.len(), |i: int| open[i].text)
}

/// Levels grow strictly from the outermost heading inwards.
pub open spec fn nested(open: Seq<HeadingView>) -> bool {
    forall|i: int, j: int| 0 <= i < j < open.len() ==> open[i].level < open[j].level
}

pub(crate) proof fn lemma_closed_to(open: Seq<HeadingView>, level: u8)
    requires
        nested(open),
    ensures
        nested(closed_to(open, level)),
        closed_to(open, level).len() <= open.len(),
        closed_to(open, level) == open.take(closed_to(open, level).len() as int),
        forall|i: int|
            0 <= i < closed_to(open, level).len() ==> closed_to(open, level)[i].level < level,
        forall|i: int|
            closed_to(open, level).len() <= i < open.len() ==> (#[trigger] open[i]).level >= level,
    decreases open.len(),
{
    if open.len() == 0 || open.last().level < level {
        assert(open.take(open.len() as int) =~= open);
    } else {
        lemma_closed_to(open.drop_last(), level);
        let c = closed_to(open, level);
        assert(open.drop_last().take(c.len() as int) =~= open.take(c.len() as int));
        assert forall|i: int| c.len() <= i < open.len() implies (#[trigger] open[i]).level
            >= level by {
            if i < open.len() - 1 {
                assert(open.drop_last()[i] == open[i]);
            }
        }
    }
}

/// The open headings are always nested: each lies in one of a smaller level.
pub proof fn outline_is_nested(headings: Seq<HeadingView>)
    ensures
        nested(outline(headings)),
    decreases headings.len(),
{
    if headings.len() > 0 {
        outline_is_nested(headings.drop_last());
        lemma_closed_to(outline(headings.drop_last()), headings.last().level);
    }
}

/// A new heading keeps exactly the open headings of smaller level, and is itself the
/// innermost one.
pub proof fn entering_keeps_the_enclosing(headings: Seq<HeadingView>, h: HeadingView)
    ensures
        outline(headings.push(h)).last() == h,
        outline(headings.push(h)).drop_last() == outline(headings).filter(
            |o: HeadingView| o.level < h.level,
        ),
{
    assert(headings.push(h).drop_last() =~= headings);
    let open = outline(headings);
    outline_is_nested(headings);
    lemma_closed_to(open, h.level);
    let c = closed_to(open, h.level);
    assert(outline(headings.push(h)).drop_last() =~= c);
    let p = |o: HeadingView| o.level < h.level;
    assert(open =~= c + open.skip(c.len() as int));
    lemma_filter_prefix(open, p, c.len() as int);
}

proof fn lemma_filter_prefix(s: Seq<HeadingView>, p: spec_fn(HeadingView) -> bool, n: int)
    requires
        0 <= n <= s.len(),
        forall|i: int| 0 <= i < n ==> p(#[trigger] s[i]),
        forall|i: int| n <= i < s.len() ==> !p(#[trigger] s[i]),
    ensures
        s.filter(p) == s.take(n),
    decreases s.len(),
{
    reveal(Seq::filter);
    if s.len() > 0 {
        let t = s.drop_last();
        if n == s.len() {
            lemma_filter_prefix(t, p, n - 1);
            assert(t.take(n - 1) =~= t);
            assert(s.take(n) =~= t.push(s.last()));
        } else {
            lemma_filter_prefix(t, p, n);
            assert(t.take(n) =~= s.take(n));
        }
    } else {
        assert(s.take(n) =~= s.filter(p));
    }
}

/// Begins a heading: closes those of its level and deeper, and opens it.
pub fn enter(open: &mut Vec<OpenHeading>, level: u8, text: String)
    ensures
        open_views(final(open)@) == entered(
            open_views(old(open)@),
            HeadingView { level, text: text@ },
        ),
{
    while open.len() > 0 && open[open.len() - 1].level >= level
        invariant
            closed_to(open_views(old(open)@), level) == closed_to(open_views(open@), level),
        decreases open.len(),
    {
        proof {
            assert(open_views(open@).last() == open@.last()@);
            assert(open_views(open@).drop_last() =~= open_views(open@.drop_last()));
        }
        open.pop();
    }
    proof {
        if open.len() > 0 {
            assert(open_views(open@).last() == open@.last()@);
        }
    }
    let ghost kept = open_views(open@);
    open.push(OpenHeading { level, text });
    assert(open_views(open@) =~= kept.push(HeadingView { level, text: text@ }));
}

/// The texts of the open headings, outermost first.
pub fn current_path(open: &Vec<OpenHeading>) -> (r: Vec<String>)
    ensures
        text::views(r@) == path_of(open_views(open@)),
{
    let mut out: Vec<String> = Vec::new();
    let mut i: usize = 0;
    while i < open.len()
        invariant
            i <= open.len(),
            out.len() == i,
            forall|j: int| 0 <= j < i ==> out@[j]@ == open@[j].text@,
        decreases open.len() - i,
    {
        out.push(open[i].text.clone());
        i += 1;
    }
    assert(text::views(out@) =~= path_of(open_views(open@)));
    out
}

// ---------------------------------------------------------------------------
// Headings among blocks
// ---------------------------------------------------------------------------
/// The heading blocks with a sequence number of at most `seq`, in order.
pub open spec fn headings_up_to(
    blocks: Seq<crate::block::BlockView>,
    seq: u32,
) -> Seq<HeadingView>
    decreases blocks.len(),
{
    if blocks.len() == 0 {
        Seq::empty()
    } else {
        let before = headings_up_to(blocks.drop_last(), seq);
        match blocks.last().kind {
            crate::block::KindView::Heading { level } if blocks.last().seq <= seq => before.push(
                HeadingView { level, text: blocks.last().text },
            ),
            _ => before,
        }
    }
}

/// The heading path of the block with sequence number `seq`: the texts of the heading
/// blocks, up to that block, that enclose it.
pub open spec fn block_path(blocks: Seq<crate::block::BlockView>, seq: u32) -> Seq<Seq<char>> {
    path_of(outline(headings_up_to(blocks, seq)))
}

/// The heading path of the block with sequence number `seq`.
pub fn heading_path_from_blocks(blocks: &[Block], seq: u32) -> (r: Vec<String>)
    ensures
        text::views(r@) == block_path(crate::block::block_views(blocks@), seq),
{
    let ghost bs = crate::block::block_views(blocks@);
    let mut open: Vec<OpenHeading> = Vec::new();
    let mut i: usize = 0;
    proof {
        assert(bs.take(0) =~= Seq::empty());
        assert(open_views(open@) =~= outline(headings_up_to(bs.take(0), seq)));
    }
    while i < blocks.len()
        invariant
            i <= blocks.len(),
            bs == crate::block::block_views(blocks@),
            open_views(open@) == outline(headings_up_to(bs.take(i as int), seq)),
        decreases blocks.len() - i,
    {
        let b = &blocks[i];
        let ghost before = headings_up_to(bs.take(i as int), seq);
        proof {
            assert(bs.take(i + 1).drop_last() =~= bs.take(i as int));
            assert(bs.take(i + 1).last() == b@);
        }
        match b.kind {
            BlockKind::Heading { level } => {
                if b.seq <= seq {
                    enter(&mut open, level, b.text.clone());
                    proof {
                        let h = HeadingView { level, text: b.text@ };
                        assert(before.push(h).drop_last() =~= before);
                        assert(headings_up_to(bs.take(i + 1), seq) == before.push(h));
                    }
                }
            },
            _ => {},
        }
        i += 1;
    }
    assert(bs.take(blocks@.len() as int) =~= bs);
    current_path(&open)
}

// ---------------------------------------------------------------------------
// Laws
// ---------------------------------------------------------------------------
/// Whether the block at position `j` is a heading that encloses the place of the number `seq`:
/// it comes no later than that, and no heading between them is of its level or further out.
pub open spec fn encloses(blocks: Seq<crate::block::BlockView>, j: int, seq: u32) -> bool {
    &&& 0 <= j < blocks.len()
    &&& blocks[j].seq <= seq
    &&& blocks[j].kind matches crate::block::KindView::Heading { level } && forall|k: int|
        j < k < blocks.len() && (#[trigger] blocks[k]).seq <= seq ==> (
        blocks[k].kind matches crate::block::KindView::Heading { level: inner } ==> level < inner)
}

/// Whether the path is made of the texts of the blocks at the given positions, in the order of
/// the document, and these are exactly the headings that enclose the place.
pub open spec fn is_path_through(
    path: Seq<Seq<char>>,
    blocks: Seq<crate::block::BlockView>,
    seq: u32,
    at: Seq<int>,
) -> bool {
    &&& at.len() == path.len()
    &&& forall|i: int|
        0 <= i < at.len() ==> 0 <= (#[trigger] at[i]) < blocks.len() && path[i]
            == blocks[at[i]].text
    &&& forall|i: int, j: int| 0 <= i < j < at.len() ==> (#[trigger] at[i]) < (#[trigger] at[j])
    &&& forall|j: int| #[trigger] at.contains(j) <==> encloses(blocks, j, seq)
}

/// Whether the path is made of the texts of the headings that enclose the place of the number
/// `seq`, outermost first.
pub open spec fn is_enclosing_path(
    path: Seq<Seq<char>>,
    blocks: Seq<crate::block::BlockView>,
    seq: u32,
) -> bool {
    exists|at: Seq<int>| #[trigger] is_path_through(path, blocks, seq, at)
}

#[verifier::rlimit(30)]
proof fn lemma_enclosing(blocks: Seq<crate::block::BlockView>, seq: u32) -> (at: Seq<int>)
    ensures
        is_path_through(block_path(blocks, seq), blocks, seq, at),
        forall|i: int|
            0 <= i < at.len() ==> blocks[#[trigger] at[i]].kind == (
            crate::block::KindView::Heading {
                level: outline(headings_up_to(blocks, seq))[i].level,
            }),
    decreases blocks.len(),
{
    let path = block_path(blocks, seq);
    if blocks.len() == 0 {
        let at = Seq::<int>::empty();
        assert(is_path_through(path, blocks, seq, at));
        at
    } else {
        let front = blocks.drop_last();
        let before = lemma_enclosing(front, seq);
        let headings = headings_up_to(front, seq);
        let open = outline(headings);
        let n = blocks.len() - 1;
        assert forall|j: int| 0 <= j < n implies blocks[j] == front[j] by {}
        let enters = match blocks.last().kind {
            crate::block::KindView::Heading { level } => blocks.last().seq <= seq,
            _ => false,
        };
        if enters {
            let level = blocks.last().kind->Heading_level;
            let h = HeadingView { level, text: blocks.last().text };
            assert(headings.push(h).drop_last() =~= headings);
            outline_is_nested(headings);
            lemma_closed_to(open, level);
            let m = closed_to(open, level).len() as int;
            let kept = before.take(m);
            let at = kept.push(n);
            assert forall|j: int| #[trigger] at.contains(j) <==> encloses(blocks, j, seq) by {
                if encloses(blocks, j, seq) && j < n {
                    assert(encloses(front, j, seq)) by {
                        assert forall|k: int|
                            j < k < front.len() && (#[trigger] front[k]).seq <= seq implies (
                        front[k].kind matches crate::block::KindView::Heading { level: inner }
                            ==> front[j].kind->Heading_level < inner) by {
                            assert(blocks[k].seq <= seq);
                        }
                    }
                    assert(before.contains(j));
                    let i = choose|i: int| 0 <= i < before.len() && before[i] == j;
                    assert(blocks[n].seq <= seq);
                    assert(open[i].level < level);
                    assert(i < m);
                    assert(kept[i] == j);
                    assert(at[i] == j);
                }
                if encloses(blocks, j, seq) && j == n {
                    assert(at[m] == n);
                }
                if at.contains(j) {
                    let i = choose|i: int| 0 <= i < at.len() && at[i] == j;
                    if i < m {
                        assert(before[i] == j);
                        assert(before.contains(j));
                        assert(encloses(front, j, seq));
                        assert(closed_to(open, level)[i].level < level);
                        assert(open[i].level < level);
                        assert(front[before[i]].kind == (crate::block::KindView::Heading {
                            level: open[i].level,
                        }));
                        assert forall|k: int|
                            j < k < blocks.len() && (#[trigger] blocks[k]).seq <= seq implies (
                        blocks[k].kind matches crate::block::KindView::Heading { level: inner }
                            ==> blocks[j].kind->Heading_level < inner) by {
                            if k < n {
                                assert(front[k].seq <= seq);
                            }
                        }
                    }
                }
            }
            assert forall|i: int| 0 <= i < at.len() implies 0 <= (#[trigger] at[i]) < blocks.len()
                && path[i] == blocks[at[i]].text && blocks[at[i]].kind == (
            crate::block::KindView::Heading {
                level: outline(headings_up_to(blocks, seq))[i].level,
            }) by {
                if i < m {
                    assert(before[i] == at[i]);
                    assert(front[before[i]].kind == (crate::block::KindView::Heading {
                        level: open[i].level,
                    }));
                    assert(block_path(front, seq)[i] == front[before[i]].text);
                }
            }
            assert forall|i: int, j: int| 0 <= i < j < at.len() implies (#[trigger] at[i]) < (
            #[trigger] at[j]) by {
                assert(before[i] == at[i]);
                if j < m {
                    assert(before[j] == at[j]);
                } else {
                    assert(0 <= before[i] < front.len());
                }
            }
            at
        } else {
            assert(headings_up_to(blocks, seq) == headings);
            assert forall|j: int| #[trigger] before.contains(j) <==> encloses(blocks, j, seq) by {
                if encloses(blocks, j, seq) {
                    assert(j != n);
                    assert forall|k: int|
                        j < k < front.len() && (#[trigger] front[k]).seq <= seq implies (
                    front[k].kind matches crate::block::KindView::Heading { level: inner }
                        ==> front[j].kind->Heading_level < inner) by {
                        assert(blocks[k].seq <= seq);
                    }
                    assert(encloses(front, j, seq));
                }
                if before.contains(j) {
                    assert(encloses(front, j, seq));
                    assert forall|k: int|
                        j < k < blocks.len() && (#[trigger] blocks[k]).seq <= seq implies (
                    blocks[k].kind matches crate::block::KindView::Heading { level: inner }
                        ==> blocks[j].kind->Heading_level < inner) by {
                        if k < n {
                            assert(front[k].seq <= seq);
                        }
                    }
                }
            }
            assert forall|i: int| 0 <= i < before.len() implies 0 <= (#[trigger] before[i])
                < blocks.len() && path[i] == blocks[before[i]].text by {
                assert(block_path(front, seq)[i] == front[before[i]].text);
            }
            before
        }
    }
}

/// The heading path of a block is made of the texts of exactly those heading blocks that
/// enclose it, outermost first.
pub proof fn block_paths_name_the_enclosing_headings(
    blocks: Seq<crate::block::BlockView>,
    seq: u32,
)
    ensures
        is_enclosing_path(block_path(blocks, seq), blocks, seq),
{
    let at = lemma_enclosing(blocks, seq);
    assert(is_path_through(block_path(blocks, seq), blocks, seq, at));
}

/// A place that some heading comes before has a path, and the last heading before it is the
/// last name in it.
pub proof fn places_behind_a_heading_have_a_path(
    path: Seq<Seq<char>>,
    blocks: Seq<crate::block::BlockView>,
    seq: u32,
    j: int,
)
    requires
        is_enclosing_path(path, blocks, seq),
        0 <= j < blocks.len(),
        blocks[j].kind is Heading,
        blocks[j].seq <= seq,
        forall|k: int|
            j < k < blocks.len() && (#[trigger] blocks[k]).seq <= seq ==> !(blocks[k].kind
                is Heading),
    ensures
        path.len() > 0,
        path.last() == blocks[j].text,
{
    let at = choose|at: Seq<int>| #[trigger] is_path_through(path, blocks, seq, at);
    assert(encloses(blocks, j, seq));
    assert(at.contains(j));
    let i = choose|i: int| 0 <= i < at.len() && at[i] == j;
    let last = at.last();
    assert(at.contains(last));
    assert(encloses(blocks, last, seq));
    if i < at.len() - 1 {
        assert(at[i] < at[at.len() - 1]);
        assert(blocks[last].seq <= seq);
    }
}

} // verus!
