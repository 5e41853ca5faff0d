//! The order of found files.

use super::globs::FoundFile;
use crate::os_path::{OsPath, SEPARATOR};
use vstd::multiset::Multiset;
use vstd::prelude::*;

verus! {

/// Whether a byte comes before another one in a path. A separator comes before every other
/// byte, so that a directory's files come before those of directories whose names go on from
/// its own.
pub open spec fn byte_before(a: u8, b: u8) -> bool {
    b != SEPARATOR && (a == SEPARATOR || a < b)
}

/// Whether a path comes before another one: by their first names that differ. It holds of
/// absolute paths without empty names or names made of dots.
pub open spec fn path_before(a: Seq<u8>, b: Seq<u8>) -> bool
    decreases a.len(),
{
    if b.len() == 0 {
        false
    } else if a.len() == 0 {
        true
    } else if a[0] != b[0] {
        byte_before(a[0], b[0])
    } else {
        path_before(a.drop_first(), b.drop_first())
    }
}

/// Whether no file comes before one in front of it.
pub open spec fn in_path_order(files: Seq<FoundFile>) -> bool {
    forall|i: int, j: int|
        0 <= i < j < files.len() ==> !path_before(
            (#[trigger] files[j]).path@,
            (#[trigger] files[i]).path@,
        )
}

/// Whether no file comes before one behind it.
spec fn in_reverse_order(files: Seq<FoundFile>) -> bool {
    forall|i: int, j: int|
        0 <= i < j < files.len() ==> !path_before(
            (#[trigger] files[i]).path@,
            (#[trigger] files[j]).path@,
        )
}

/// Of two paths at most one comes before the other.
proof fn lemma_before_asymmetric(a: Seq<u8>, b: Seq<u8>)
    ensures
        !(path_before(a, b) && path_before(b, a)),
    decreases a.len(),
{
    if a.len() > 0 && b.len() > 0 && a[0] == b[0] {
        lemma_before_asymmetric(a.drop_first(), b.drop_first());
    }
}

/// What does not come before a path does not come before one in front of it.
proof fn lemma_not_before(a: Seq<u8>, b: Seq<u8>, c: Seq<u8>)
    requires
        !path_before(b, a),
        !path_before(c, b),
    ensures
        !path_before(c, a),
    decreases a.len(),
{
    if a.len() > 0 && b.len() > 0 && c.len() > 0 && a[0] == b[0] && b[0] == c[0] {
        lemma_not_before(a.drop_first(), b.drop_first(), c.drop_first());
    }
}

/// Whether a path comes before another one.
fn comes_before(a: &OsPath, b: &OsPath) -> (r: bool)
    ensures
        r == path_before(a@, b@),
{
    let x = &a.bytes;
    let y = &b.bytes;
    let mut i: usize = 0;
    assert(a@.skip(0) =~= a@);
    assert(b@.skip(0) =~= b@);
    while i < x.len() && i < y.len()
        invariant
            i <= x.len(),
            i <= y.len(),
            x@ == a@,
            y@ == b@,
            path_before(a@, b@) == path_before(a@.skip(i as int), b@.skip(i as int)),
        decreases x.len() - i,
    {
        assert(a@.skip(i as int)[0] == x@[i as int]);
        assert(b@.skip(i as int)[0] == y@[i as int]);
        if x[i] != y[i] {
            return y[i] != SEPARATOR && (x[i] == SEPARATOR || x[i] < y[i]);
        }
        assert(a@.skip(i as int).drop_first() =~= a@.skip(i + 1));
        assert(b@.skip(i as int).drop_first() =~= b@.skip(i + 1));
        i += 1;
    }
    i < y.len()
}

/// The files from the last to the first.
fn reversed(files: Vec<FoundFile>) -> (r: Vec<FoundFile>)
    ensures
        r@ == files@.reverse(),
{
    let ghost all = files@;
    let mut rest = files;
    let mut out: Vec<FoundFile> = Vec::new();
    while rest.len() > 0
        invariant
            rest@.len() + out@.len() == all.len(),
            rest@ == all.take(rest@.len() as int),
            forall|k: int| 0 <= k < out@.len() ==> (#[trigger] out@[k]) == all[all.len() - 1 - k],
        decreases rest.len(),
    {
        let ghost n = rest@.len() - 1;
        match rest.pop() {
            Some(f) => {
                out.push(f);
                assert(rest@ =~= all.take(n));
            },
            None => {},
        }
    }
    assert(out@ =~= all.reverse());
    out
}

/// The multiset of a list with its last item taken off.
proof fn lemma_pop_multiset(s: Seq<FoundFile>)
    requires
        s.len() > 0,
    ensures
        s.to_multiset() == s.drop_last().to_multiset().insert(s.last()),
{
    s.drop_last().to_multiset_ensures();
    assert(s =~= s.drop_last().push(s.last()));
}

/// Puts two lists together, each with its first path last.
fn merged(a: Vec<FoundFile>, b: Vec<FoundFile>) -> (r: Vec<FoundFile>)
    requires
        in_reverse_order(a@),
        in_reverse_order(b@),
    ensures
        in_path_order(r@),
        r@.to_multiset() == a@.to_multiset().add(b@.to_multiset()),
{
    let ghost all = a@.to_multiset().add(b@.to_multiset());
    let mut a = a;
    let mut b = b;
    let mut out: Vec<FoundFile> = Vec::new();
    assert(out@.to_multiset() =~= Multiset::<FoundFile>::empty()) by {
        out@.to_multiset_ensures();
    }
    assert(out@.to_multiset().add(a@.to_multiset()).add(b@.to_multiset()) =~= all);
    while a.len() > 0 || b.len() > 0
        invariant
            in_reverse_order(a@),
            in_reverse_order(b@),
            in_path_order(out@),
            forall|i: int, j: int|
                0 <= i < out@.len() && 0 <= j < a@.len() ==> !path_before(
                    (#[trigger] a@[j]).path@,
                    (#[trigger] out@[i]).path@,
                ),
            forall|i: int, j: int|
                0 <= i < out@.len() && 0 <= j < b@.len() ==> !path_before(
                    (#[trigger] b@[j]).path@,
                    (#[trigger] out@[i]).path@,
                ),
            out@.to_multiset().add(a@.to_multiset()).add(b@.to_multiset()) == all,
        decreases a.len() + b.len(),
    {
        let take_b = a.len() == 0 || (b.len() > 0 && comes_before(
            &b[b.len() - 1].path,
            &a[a.len() - 1].path,
        ));
        let ghost (x, y, o) = (a@, b@, out@);
        let next = if take_b {
            b.pop()
        } else {
            a.pop()
        };
        match next {
            Some(f) => {
                proof {
                    if take_b {
                        if x.len() > 0 {
                            lemma_before_asymmetric(y.last().path@, x.last().path@);
                        }
                        lemma_taken(x, y, o);
                        lemma_pop_multiset(y);
                    } else {
                        if y.len() > 0 {
                            assert(!path_before(y.last().path@, f.path@));
                        }
                        lemma_taken(y, x, o);
                        lemma_pop_multiset(x);
                    }
                    o.to_multiset_ensures();
                }
                out.push(f);
                assert(out@.to_multiset().add(a@.to_multiset()).add(b@.to_multiset()) =~= all);
            },
            None => {},
        }
    }
    proof {
        a@.to_multiset_ensures();
        b@.to_multiset_ensures();
        assert(out@.to_multiset().add(a@.to_multiset()).add(b@.to_multiset())
            =~= out@.to_multiset());
    }
    out
}

/// The last file of `y` comes next: what is out stays in front of it, and it is in front of all
/// that is left.
proof fn lemma_taken(x: Seq<FoundFile>, y: Seq<FoundFile>, o: Seq<FoundFile>)
    requires
        y.len() > 0,
        in_reverse_order(x),
        in_reverse_order(y),
        in_path_order(o),
        x.len() > 0 ==> !path_before(x.last().path@, y.last().path@),
        forall|i: int, j: int|
            0 <= i < o.len() && 0 <= j < y.len() ==> !path_before(
                (#[trigger] y[j]).path@,
                (#[trigger] o[i]).path@,
            ),
    ensures
        in_path_order(o.push(y.last())),
        in_reverse_order(y.drop_last()),
        forall|j: int| 0 <= j < x.len() ==> !path_before((#[trigger] x[j]).path@, y.last().path@),
        forall|j: int|
            0 <= j < y.len() - 1 ==> !path_before((#[trigger] y[j]).path@, y.last().path@),
{
    assert forall|j: int| 0 <= j < x.len() implies !path_before(
        (#[trigger] x[j]).path@,
        y.last().path@,
    ) by {
        if j < x.len() - 1 {
            assert(!path_before(x[j].path@, x[x.len() - 1].path@));
            lemma_not_before(y.last().path@, x.last().path@, x[j].path@);
        }
    }
}

/// The files in the order of their paths.
pub fn sort_by_path(files: Vec<FoundFile>) -> (r: Vec<FoundFile>)
    ensures
        in_path_order(r@),
        r@.to_multiset() == files@.to_multiset(),
    decreases files@.len(),
{
    let n: usize = files.len();
    if n <= 1 {
        return files;
    }
    let ghost all = files@;
    let mut front = files;
    let mut back: Vec<FoundFile> = Vec::new();
    let half: usize = n / 2;
    proof {
        back@.to_multiset_ensures();
        assert(front@.to_multiset().add(back@.to_multiset()) =~= all.to_multiset());
    }
    while back.len() < half
        invariant
            n == all.len(),
            half == n / 2,
            back@.len() <= half,
            front@.len() + back@.len() == n,
            front@.to_multiset().add(back@.to_multiset()) == all.to_multiset(),
        decreases half - back.len(),
    {
        let ghost (f, b) = (front@, back@);
        match front.pop() {
            Some(file) => {
                proof {
                    lemma_pop_multiset(f);
                    b.to_multiset_ensures();
                }
                back.push(file);
                assert(front@.to_multiset().add(back@.to_multiset()) =~= all.to_multiset());
            },
            None => {},
        }
    }
    let x = sort_by_path(front);
    let y = sort_by_path(back);
    let ghost (xs, ys) = (x@, y@);
    let x = reversed(x);
    let y = reversed(y);
    proof {
        lemma_reversed(xs);
        lemma_reversed(ys);
    }
    merged(x, y)
}

/// A list in order, turned round.
proof fn lemma_reversed(s: Seq<FoundFile>)
    requires
        in_path_order(s),
    ensures
        in_reverse_order(s.reverse()),
        s.reverse().to_multiset() == s.to_multiset(),
{
    let r = s.reverse();
    assert forall|i: int, j: int| 0 <= i < j < r.len() implies !path_before(
        (#[trigger] r[i]).path@,
        (#[trigger] r[j]).path@,
    ) by {
        assert(r[i] == s[s.len() - 1 - i] && r[j] == s[s.len() - 1 - j]);
    }
    s.lemma_reverse_to_multiset();
}

} // verus!
