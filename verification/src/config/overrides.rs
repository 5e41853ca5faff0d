//! Presets by source kind.

use crate::text;
use vstd::prelude::*;

verus! {

/// Presets by source kind, listed by kind.
#[derive(Debug, Clone, PartialEq, Eq)]
pub struct PresetOverrides {
    entries: Vec<(String, String)>,
}

/// The listing with one entry put in: in place of one for the same kind, or else in front of
/// the first kind that comes after it.
pub open spec fn inserted(
    s: Seq<(Seq<char>, Seq<char>)>,
    kind: Seq<char>,
    preset: Seq<char>,
) -> Seq<(Seq<char>, Seq<char>)>
    decreases s.len(),
{
    if s.len() == 0 {
        seq![(kind, preset)]
    } else if s[0].0 == kind {
        seq![(kind, preset)] + s.drop_first()
    } else if text::text_lt(kind, s[0].0) {
        seq![(kind, preset)] + s
    } else {
        seq![s[0]] + inserted(s.drop_first(), kind, preset)
    }
}

/// The views of pairs of strings.
pub open spec fn pair_views(v: Seq<(String, String)>) -> Seq<(Seq<char>, Seq<char>)> {
    Seq::new(v.len(), |i: int| (v[i].0@, v[i].1@))
}

impl View for PresetOverrides {
    type V = Seq<(Seq<char>, Seq<char>)>;

    closed spec fn view(&self) -> Seq<(Seq<char>, Seq<char>)> {
        pair_views(self.entries@)
    }
}

/// The entries that an insertion passes by are kept.
proof fn lemma_inserted_at(
    s: Seq<(Seq<char>, Seq<char>)>,
    kind: Seq<char>,
    preset: Seq<char>,
    i: int,
)
    requires
        0 <= i <= s.len(),
        forall|j: int|
            0 <= j < i ==> (#[trigger] s[j]).0 != kind && !text::text_lt(kind, s[j].0),
    ensures
        inserted(s, kind, preset) == s.take(i) + inserted(s.skip(i), kind, preset),
    decreases i,
{
    if i == 0 {
        assert(s.skip(0) =~= s);
        assert(s.take(0) + inserted(s, kind, preset) =~= inserted(s, kind, preset));
    } else {
        let t = s.drop_first();
        assert forall|j: int| 0 <= j < i - 1 implies (#[trigger] t[j]).0 != kind
            && !text::text_lt(kind, t[j].0) by {
            assert(t[j] == s[j + 1]);
        }
        lemma_inserted_at(t, kind, preset, i - 1);
        assert(t.skip(i - 1) =~= s.skip(i));
        assert(s.take(i) =~= seq![s[0]] + t.take(i - 1));
        assert(inserted(s, kind, preset) =~= s.take(i) + inserted(s.skip(i), kind, preset));
    }
}

impl PresetOverrides {
    /// No overrides.
    pub fn new() -> (r: Self)
        ensures
            r@ == Seq::<(Seq<char>, Seq<char>)>::empty(),
    {
        let r = PresetOverrides { entries: Vec::new() };
        assert(r@ =~= Seq::<(Seq<char>, Seq<char>)>::empty());
        r
    }

    /// Sets the preset for a source kind.
    pub fn insert(&mut self, kind: String, preset: String)
        ensures
            final(self)@ == inserted(old(self)@, kind@, preset@),
    {
        let ghost s = self@;
        let ghost (k, p) = (kind@, preset@);
        let mut i: usize = 0;
        while i < self.entries.len() && !text::str_eq(self.entries[i].0.as_str(), kind.as_str())
            && !text::str_lt(kind.as_str(), self.entries[i].0.as_str())
            invariant
                i <= self.entries@.len(),
                s == self@,
                k == kind@,
                forall|j: int|
                    0 <= j < i ==> (#[trigger] s[j]).0 != k && !text::text_lt(k, s[j].0),
            decreases self.entries.len() - i,
        {
            assert(s[i as int].0 != k && !text::text_lt(k, s[i as int].0));
            i += 1;
        }
        proof {
            lemma_inserted_at(s, k, p, i as int);
        }
        if i < self.entries.len() && text::str_eq(self.entries[i].0.as_str(), kind.as_str()) {
            assert(s.skip(i as int)[0] == s[i as int]);
            self.entries.set(i, (kind, preset));
            assert(s.skip(i as int).drop_first() =~= s.skip(i + 1));
            assert(self@ =~= s.take(i as int) + (seq![(k, p)] + s.skip(i + 1)));
        } else {
            proof {
                if i < s.len() {
                    assert(s.skip(i as int)[0] == s[i as int]);
                } else {
                    assert(s.skip(i as int) =~= Seq::<(Seq<char>, Seq<char>)>::empty());
                }
            }
            self.entries.insert(i, (kind, preset));
            assert(self@ =~= s.take(i as int) + (seq![(k, p)] + s.skip(i as int)));
            assert(seq![(k, p)] + Seq::<(Seq<char>, Seq<char>)>::empty() =~= seq![(k, p)]);
        }
    }

    /// How many overrides there are.
    pub fn len(&self) -> (r: usize)
        ensures
            r == self@.len(),
    {
        self.entries.len()
    }

    /// The kind and preset of the `i`th override.
    pub fn entry(&self, i: usize) -> (r: (&str, &str))
        requires
            i < self@.len(),
        ensures
            (r.0@, r.1@) == self@[i as int],
    {
        (self.entries[i].0.as_str(), self.entries[i].1.as_str())
    }

    /// The same overrides.
    pub fn copied(&self) -> (r: Self)
        ensures
            r@ == self@,
    {
        let mut entries: Vec<(String, String)> = Vec::new();
        let mut i: usize = 0;
        while i < self.entries.len()
            invariant
                i <= self.entries@.len(),
                pair_views(entries@) == self@.take(i as int),
            decreases self.entries.len() - i,
        {
            let ghost before = entries@;
            entries.push((self.entries[i].0.clone(), self.entries[i].1.clone()));
            assert(pair_views(entries@) =~= pair_views(before).push(self@[i as int]));
            assert(self@.take(i + 1) =~= self@.take(i as int).push(self@[i as int]));
            i += 1;
        }
        assert(self@.take(i as int) =~= self@);
        PresetOverrides { entries }
    }
}

// ---------------------------------------------------------------------------
// Laws
// ---------------------------------------------------------------------------
/// The preset that a listing has for a kind.
pub open spec fn preset_for_kind(s: Seq<(Seq<char>, Seq<char>)>, kind: Seq<char>) -> Option<Seq<char>>
    decreases s.len(),
{
    if s.len() == 0 {
        None
    } else if s[0].0 == kind {
        Some(s[0].1)
    } else {
        preset_for_kind(s.drop_first(), kind)
    }
}

/// What was put in last for a kind is found, and other kinds keep their presets, in a
/// listing that holds the kinds in order.
pub proof fn overrides_are_found(
    s: Seq<(Seq<char>, Seq<char>)>,
    kind: Seq<char>,
    preset: Seq<char>,
    other: Seq<char>,
)
    requires
        in_order(s),
    ensures
        preset_for_kind(inserted(s, kind, preset), other) == (if other == kind {
            Some(preset)
        } else {
            preset_for_kind(s, other)
        }),
        in_order(inserted(s, kind, preset)),
    decreases s.len(),
{
    let r = inserted(s, kind, preset);
    if s.len() == 0 {
        assert(r.drop_first() =~= s);
    } else if s[0].0 == kind {
        assert(r.drop_first() =~= s.drop_first());
        assert forall|i: int, j: int| 0 <= i < j < r.len() implies text::text_lt(
            (#[trigger] r[i]).0,
            (#[trigger] r[j]).0,
        ) by {
            assert(r[i].0 == s[i].0 && r[j].0 == s[j].0);
        }
    } else if text::text_lt(kind, s[0].0) {
        assert(r.drop_first() =~= s);
        assert forall|i: int, j: int| 0 <= i < j < r.len() implies text::text_lt(
            (#[trigger] r[i]).0,
            (#[trigger] r[j]).0,
        ) by {
            assert(r[j] == s[j - 1]);
            if i > 0 {
                assert(r[i] == s[i - 1]);
            } else if j > 1 {
                assert(text::text_lt(s[0].0, s[j - 1].0));
                text::lemma_text_lt_transitive(kind, s[0].0, s[j - 1].0);
            }
        }
    } else {
        let t = s.drop_first();
        assert forall|i: int, j: int| 0 <= i < j < t.len() implies text::text_lt(
            (#[trigger] t[i]).0,
            (#[trigger] t[j]).0,
        ) by {
            assert(t[i] == s[i + 1] && t[j] == s[j + 1]);
        }
        overrides_are_found(t, kind, preset, other);
        let u = inserted(t, kind, preset);
        assert(r.drop_first() =~= u);
        text::lemma_text_lt_total(s[0].0, kind);
        assert forall|j: int| 0 <= j < u.len() implies text::text_lt(s[0].0, (#[trigger] u[j]).0) by {
            lemma_inserted_from(t, kind, preset, j);
            if u[j].0 != kind {
                let k = choose|k: int| 0 <= k < t.len() && (#[trigger] t[k]).0 == u[j].0;
                assert(t[k] == s[k + 1]);
                assert(text::text_lt(s[0].0, s[k + 1].0));
            }
        }
        assert forall|i: int, j: int| 0 <= i < j < r.len() implies text::text_lt(
            (#[trigger] r[i]).0,
            (#[trigger] r[j]).0,
        ) by {
            assert(r[j] == u[j - 1]);
            if i > 0 {
                assert(r[i] == u[i - 1]);
            }
        }
    }
}

/// Whether the kinds of a listing are in order, and so each occurs once.
pub open spec fn in_order(s: Seq<(Seq<char>, Seq<char>)>) -> bool {
    forall|i: int, j: int|
        0 <= i < j < s.len() ==> text::text_lt((#[trigger] s[i]).0, (#[trigger] s[j]).0)
}

/// The kinds of a listing after an insertion are those before it, and the new one.
proof fn lemma_inserted_from(
    s: Seq<(Seq<char>, Seq<char>)>,
    kind: Seq<char>,
    preset: Seq<char>,
    j: int,
)
    requires
        0 <= j < inserted(s, kind, preset).len(),
    ensures
        inserted(s, kind, preset)[j].0 == kind || exists|k: int|
            0 <= k < s.len() && (#[trigger] s[k]).0 == inserted(s, kind, preset)[j].0,
    decreases s.len(),
{
    let r = inserted(s, kind, preset);
    if s.len() == 0 || j == 0 {
        if s.len() > 0 {
            assert(r[0].0 == kind || r[0].0 == s[0].0);
        }
    } else if s[0].0 == kind {
        assert(r[j] == s[j]);
    } else if text::text_lt(kind, s[0].0) {
        assert(r[j] == s[j - 1]);
    } else {
        let t = s.drop_first();
        lemma_inserted_from(t, kind, preset, j - 1);
        assert(r[j] == inserted(t, kind, preset)[j - 1]);
        if r[j].0 != kind {
            let k = choose|k: int| 0 <= k < t.len() && (#[trigger] t[k]).0 == r[j].0;
            assert(t[k] == s[k + 1]);
        }
    }
}

/// Overrides for different kinds can be put in in any order.
pub proof fn insertion_order_does_not_matter(
    s: Seq<(Seq<char>, Seq<char>)>,
    k1: Seq<char>,
    p1: Seq<char>,
    k2: Seq<char>,
    p2: Seq<char>,
)
    requires
        k1 != k2,
    ensures
        inserted(inserted(s, k1, p1), k2, p2) == inserted(inserted(s, k2, p2), k1, p1),
{
    text::lemma_text_lt_total(k1, k2);
    if text::text_lt(k1, k2) {
        lemma_insertions_commute(s, k1, p1, k2, p2);
    } else {
        lemma_insertions_commute(s, k2, p2, k1, p1);
    }
}

proof fn lemma_insertions_commute(
    s: Seq<(Seq<char>, Seq<char>)>,
    k1: Seq<char>,
    p1: Seq<char>,
    k2: Seq<char>,
    p2: Seq<char>,
)
    requires
        text::text_lt(k1, k2),
    ensures
        inserted(inserted(s, k1, p1), k2, p2) == inserted(inserted(s, k2, p2), k1, p1),
    decreases s.len(),
{
    text::lemma_text_lt_total(k1, k2);
    let a = inserted(s, k1, p1);
    let b = inserted(s, k2, p2);
    let e1 = seq![(k1, p1)];
    let e2 = seq![(k2, p2)];
    if s.len() == 0 {
        assert(a.drop_first() =~= s);
        assert(inserted(a, k2, p2) =~= e1 + e2);
        assert(inserted(b, k1, p1) =~= e1 + e2);
    } else if s[0].0 == k1 {
        assert(a.drop_first() =~= s.drop_first());
        assert(b.drop_first() =~= inserted(s.drop_first(), k2, p2));
        assert(inserted(a, k2, p2) =~= inserted(b, k1, p1));
    } else if text::text_lt(k1, s[0].0) {
        assert(a.drop_first() =~= s);
        assert(b.len() > 0 && (b[0].0 == k2 || b[0].0 == s[0].0));
        text::lemma_text_lt_total(k1, b[0].0);
        assert(inserted(a, k2, p2) =~= e1 + b);
        assert(inserted(b, k1, p1) =~= e1 + b);
    } else {
        let t = s.drop_first();
        text::lemma_text_lt_total(s[0].0, k1);
        text::lemma_text_lt_transitive(s[0].0, k1, k2);
        text::lemma_text_lt_total(s[0].0, k2);
        assert(a.drop_first() =~= inserted(t, k1, p1));
        assert(b.drop_first() =~= inserted(t, k2, p2));
        lemma_insertions_commute(t, k1, p1, k2, p2);
        assert(inserted(a, k2, p2) =~= inserted(b, k1, p1));
    }
}

} // verus!
