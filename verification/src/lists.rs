//! Sequences: lookups, updates and views.

use vstd::prelude::*;

verus! {

/// The views of a list of items.
pub open spec fn views_of<T: View>(v: Seq<T>) -> Seq<T::V> {
    Seq::new(v.len(), |i: int| v[i]@)
}

/// Position of the first item from `i` on that satisfies `p`.
pub open spec fn first_from<V>(s: Seq<V>, p: spec_fn(V) -> bool, i: int) -> Option<int>
    decreases s.len() - i,
{
    if i < 0 || i >= s.len() {
        None
    } else if p(s[i]) {
        Some(i)
    } else {
        first_from(s, p, i + 1)
    }
}

/// The first item that satisfies `p`.
pub open spec fn found<V>(s: Seq<V>, p: spec_fn(V) -> bool) -> Option<V> {
    match first_from(s, p, 0) {
        Some(i) => Some(s[i]),
        None => None,
    }
}

/// The list with the first item that satisfies `p` replaced by `f` of it.
pub open spec fn updated<V>(s: Seq<V>, p: spec_fn(V) -> bool, f: spec_fn(V) -> V) -> Seq<V> {
    match first_from(s, p, 0) {
        Some(i) => s.update(i, f(s[i])),
        None => s,
    }
}

/// What [`first_from`] finds.
pub proof fn lemma_first_from<V>(s: Seq<V>, p: spec_fn(V) -> bool, i: int)
    requires
        0 <= i <= s.len(),
    ensures
        match first_from(s, p, i) {
            Some(k) => i <= k < s.len() && p(s[k]) && forall|j: int| i <= j < k ==> !p(#[trigger] s[j]),
            None => forall|j: int| i <= j < s.len() ==> !p(#[trigger] s[j]),
        },
    decreases s.len() - i,
{
    if i < s.len() && !p(s[i]) {
        lemma_first_from(s, p, i + 1);
    }
}

/// Selecting from one item more.
pub proof fn lemma_filter_step<V>(s: Seq<V>, p: spec_fn(V) -> bool, i: int)
    requires
        0 <= i < s.len(),
    ensures
        s.take(i + 1).filter(p) == (if p(s[i]) {
            s.take(i).filter(p).push(s[i])
        } else {
            s.take(i).filter(p)
        }),
{
    reveal(Seq::filter);
    assert(s.take(i + 1).drop_last() =~= s.take(i));
}

/// Selecting from a list and one item more.
pub proof fn lemma_filter_push<V>(s: Seq<V>, x: V, p: spec_fn(V) -> bool)
    ensures
        s.push(x).filter(p) == (if p(x) {
            s.filter(p).push(x)
        } else {
            s.filter(p)
        }),
{
    lemma_filter_step(s.push(x), p, s.len() as int);
    assert(s.push(x).take(s.len() as int + 1) =~= s.push(x));
    assert(s.push(x).take(s.len() as int) =~= s);
}

/// Selecting first by a weaker condition changes nothing.
pub proof fn lemma_filter_twice<V>(s: Seq<V>, weak: spec_fn(V) -> bool, strong: spec_fn(V) -> bool)
    requires
        forall|x: V| #[trigger] strong(x) ==> weak(x),
    ensures
        s.filter(weak).filter(strong) == s.filter(strong),
    decreases s.len(),
{
    reveal(Seq::filter);
    if s.len() > 0 {
        lemma_filter_twice(s.drop_last(), weak, strong);
        lemma_filter_push(s.drop_last().filter(weak), s.last(), strong);
    }
}

/// Selecting what every item satisfies changes nothing.
pub proof fn lemma_filter_all<V>(s: Seq<V>, p: spec_fn(V) -> bool)
    requires
        forall|i: int| 0 <= i < s.len() ==> p(#[trigger] s[i]),
    ensures
        s.filter(p) == s,
    decreases s.len(),
{
    reveal(Seq::filter);
    if s.len() > 0 {
        assert(p(s[s.len() - 1]));
        assert forall|i: int| 0 <= i < s.drop_last().len() implies p(#[trigger] s.drop_last()[i]) by {
            assert(p(s[i]));
        }
        lemma_filter_all(s.drop_last(), p);
        assert(s.drop_last().push(s.last()) =~= s);
    }
}

/// Replaces the view of one item.
pub proof fn lemma_views_update<T: View>(v: Seq<T>, i: int, x: T)
    requires
        0 <= i < v.len(),
    ensures
        views_of(v.update(i, x)) == views_of(v).update(i, x@),
{
    assert(views_of(v.update(i, x)) =~= views_of(v).update(i, x@));
}

/// Adds the view of one item.
pub proof fn lemma_views_push<T: View>(v: Seq<T>, x: T)
    ensures
        views_of(v.push(x)) == views_of(v).push(x@),
{
    assert(views_of(v.push(x)) =~= views_of(v).push(x@));
}

} // verus!
