//! The index of known documents.

use super::records;
use super::records::DocumentRecord;
use crate::lists;
use crate::text;
use vstd::prelude::*;

verus! {

/// The record of a URI in a list of records with distinct URIs.
spec fn record_of(records: Seq<records::DocView>, uri: Seq<char>) -> records::DocView {
    records[choose|i: int| 0 <= i < records.len() && (#[trigger] records[i]).uri == uri]
}

/// The records by URI.
spec fn by_uri(records: Seq<records::DocView>) -> Map<Seq<char>, records::DocView> {
    Map::new(
        |u: Seq<char>| exists|i: int| 0 <= i < records.len() && (#[trigger] records[i]).uri == u,
        |u: Seq<char>| record_of(records, u),
    )
}

/// No two records have the same URI.
spec fn distinct_uris(records: Seq<records::DocView>) -> bool {
    forall|i: int, j: int|
        0 <= i < j < records.len() ==> (#[trigger] records[i]).uri != (#[trigger] records[j]).uri
}

/// The known documents, at most one for each URI.
pub struct DocumentIndex {
    records: Vec<DocumentRecord>,
}

impl View for DocumentIndex {
    type V = Map<Seq<char>, records::DocView>;

    closed spec fn view(&self) -> Map<Seq<char>, records::DocView> {
        by_uri(lists::views_of(self.records@))
    }
}

/// What the map holds for the `i`th record, and for URIs without a record.
proof fn lemma_by_uri(records: Seq<records::DocView>, i: int)
    requires
        distinct_uris(records),
        0 <= i < records.len(),
    ensures
        by_uri(records).contains_key(records[i].uri),
        by_uri(records)[records[i].uri] == records[i],
{
    let uri = records[i].uri;
    let k = choose|k: int| 0 <= k < records.len() && (#[trigger] records[k]).uri == uri;
    assert(records[k].uri == uri);
    if k < i {
        assert(records[k].uri != records[i].uri);
    } else if i < k {
        assert(records[i].uri != records[k].uri);
    }
}

/// The documents after those of a list were put in, one after the other.
pub open spec fn with_all(
    index: Map<Seq<char>, records::DocView>,
    records: Seq<records::DocView>,
) -> Map<Seq<char>, records::DocView>
    decreases records.len(),
{
    if records.len() == 0 {
        index
    } else {
        with_all(index, records.drop_last()).insert(records.last().uri, records.last())
    }
}

impl DocumentIndex {
    /// No URI is in the list twice.
    pub closed spec fn wf(self) -> bool {
        distinct_uris(lists::views_of(self.records@))
    }

    /// An index without documents.
    pub fn new() -> (r: Self)
        ensures
            r.wf(),
            r@ == Map::<Seq<char>, records::DocView>::empty(),
    {
        let r = DocumentIndex { records: Vec::new() };
        assert(r@ =~= Map::<Seq<char>, records::DocView>::empty());
        r
    }

    /// An index of the given records; of two with the same URI the later one is kept.
    pub fn from_records(records: Vec<DocumentRecord>) -> (r: Self)
        ensures
            r.wf(),
            r@ == with_all(
                Map::<Seq<char>, records::DocView>::empty(),
                lists::views_of(records@),
            ),
    {
        let mut index = Self::new();
        let mut i: usize = 0;
        let ghost vs = lists::views_of(records@);
        assert(vs.take(0) =~= Seq::<records::DocView>::empty());
        while i < records.len()
            invariant
                i <= records.len(),
                vs == lists::views_of(records@),
                index.wf(),
                index@ == with_all(
                    Map::<Seq<char>, records::DocView>::empty(),
                    vs.take(i as int),
                ),
            decreases records.len() - i,
        {
            index.upsert(records[i].copied());
            assert(vs.take(i + 1).drop_last() =~= vs.take(i as int));
            i += 1;
        }
        assert(vs.take(i as int) =~= vs);
        index
    }

    /// Every record is found under its own URI.
    pub proof fn records_have_their_uris(self)
        requires
            self.wf(),
        ensures
            forall|u: Seq<char>| #[trigger] self@.contains_key(u) ==> self@[u].uri == u,
    {
        let vs = lists::views_of(self.records@);
        assert forall|u: Seq<char>| #[trigger] self@.contains_key(u) implies self@[u].uri == u by {
            let i = choose|i: int| 0 <= i < vs.len() && (#[trigger] vs[i]).uri == u;
            lemma_by_uri(vs, i);
        }
    }

    /// Position of a URI's record.
    fn position(&self, uri: &str) -> (r: Option<usize>)
        requires
            self.wf(),
        ensures
            match r {
                Some(i) => i < self.records@.len() && self.records@[i as int]@.uri == uri@
                    && self@.contains_key(uri@) && self@[uri@] == self.records@[i as int]@,
                None => !self@.contains_key(uri@) && forall|j: int|
                    0 <= j < self.records@.len() ==> (#[trigger] self.records@[j])@.uri != uri@,
            },
    {
        let ghost vs = lists::views_of(self.records@);
        let mut i: usize = 0;
        while i < self.records.len()
            invariant
                i <= self.records@.len(),
                self.wf(),
                vs == lists::views_of(self.records@),
                forall|j: int| 0 <= j < i ==> (#[trigger] vs[j]).uri != uri@,
            decreases self.records.len() - i,
        {
            if text::str_eq(self.records[i].uri.as_str(), uri) {
                proof {
                    lemma_by_uri(vs, i as int);
                }
                return Some(i);
            }
            assert(vs[i as int].uri != uri@);
            i += 1;
        }
        assert forall|j: int| 0 <= j < self.records@.len() implies (
        #[trigger] self.records@[j])@.uri != uri@ by {
            assert(vs[j].uri != uri@);
        }
        None
    }

    /// The document with this URI.
    pub fn get(&self, uri: &str) -> (r: Option<&DocumentRecord>)
        requires
            self.wf(),
        ensures
            match r {
                Some(d) => self@.contains_key(uri@) && d@ == self@[uri@] && d@.uri == uri@,
                None => !self@.contains_key(uri@),
            },
    {
        match self.position(uri) {
            Some(i) => Some(&self.records[i]),
            None => None,
        }
    }

    /// Puts a document in, in place of one with the same URI.
    pub fn upsert(&mut self, record: DocumentRecord)
        requires
            old(self).wf(),
        ensures
            final(self).wf(),
            final(self)@ == old(self)@.insert(record@.uri, record@),
    {
        let at = self.position(record.uri.as_str());
        let ghost before = lists::views_of(self.records@);
        let ghost v = record@;
        match at {
            Some(i) => {
                self.records.set(i, record);
                proof {
                    let after = lists::views_of(self.records@);
                    assert(after =~= before.update(i as int, v));
                    assert(before[i as int].uri == v.uri);
                    assert forall|a: int, b: int| 0 <= a < b < after.len() implies (
                    #[trigger] after[a]).uri != (#[trigger] after[b]).uri by {
                        assert(before[a].uri != before[b].uri);
                    }
                    lemma_upserted(before, after, i as int, v);
                }
            },
            None => {
                self.records.push(record);
                proof {
                    let after = lists::views_of(self.records@);
                    assert(after =~= before.push(v));
                    assert(forall|j: int| 0 <= j < before.len() ==> (#[trigger] before[j]).uri != v.uri);
                    assert forall|a: int, b: int| 0 <= a < b < after.len() implies (
                    #[trigger] after[a]).uri != (#[trigger] after[b]).uri by {
                        assert(before[a].uri != v.uri);
                    }
                    lemma_upserted(before, after, before.len() as int, v);
                }
            },
        }
    }

    /// Takes the document with this URI out.
    pub fn remove(&mut self, uri: &str) -> (r: Option<DocumentRecord>)
        requires
            old(self).wf(),
        ensures
            final(self).wf(),
            final(self)@ == old(self)@.remove(uri@),
            match r {
                Some(d) => old(self)@.contains_key(uri@) && d@ == old(self)@[uri@],
                None => !old(self)@.contains_key(uri@),
            },
    {
        match self.position(uri) {
            Some(i) => {
                let ghost before = lists::views_of(self.records@);
                let d = self.records.remove(i);
                proof {
                    let after = lists::views_of(self.records@);
                    assert(after =~= before.remove(i as int));
                    lemma_removed(before, i as int);
                }
                Some(d)
            },
            None => {
                assert(self@ =~= self@.remove(uri@));
                None
            },
        }
    }

    /// The URIs of all documents, each once.
    pub fn uris(&self) -> (r: Vec<String>)
        requires
            self.wf(),
        ensures
            text::views(r@).no_duplicates(),
            text::views(r@).to_set() == self@.dom(),
    {
        let ghost vs = lists::views_of(self.records@);
        let mut out: Vec<String> = Vec::new();
        let mut i: usize = 0;
        while i < self.records.len()
            invariant
                i <= self.records@.len(),
                vs == lists::views_of(self.records@),
                out@.len() == i,
                forall|j: int| 0 <= j < i ==> (#[trigger] out@[j])@ == vs[j].uri,
            decreases self.records.len() - i,
        {
            out.push(self.records[i].uri.clone());
            i += 1;
        }
        proof {
            let us = text::views(out@);
            assert forall|a: int, b: int| 0 <= a < us.len() && 0 <= b < us.len() && a != b implies us[a]
                != us[b] by {
                assert(out@[a]@ == vs[a].uri && out@[b]@ == vs[b].uri);
                if a < b {
                    assert(vs[a].uri != vs[b].uri);
                } else {
                    assert(vs[b].uri != vs[a].uri);
                }
            }
            assert(us.to_set() =~= self@.dom()) by {
                assert forall|u: Seq<char>| self@.dom().contains(u) implies us.to_set().contains(u) by {
                    let i = choose|i: int| 0 <= i < vs.len() && (#[trigger] vs[i]).uri == u;
                    assert(us[i] == u);
                }
                assert forall|u: Seq<char>| us.to_set().contains(u) implies self@.dom().contains(u) by {
                    let i = choose|i: int| 0 <= i < us.len() && us[i] == u;
                    assert(out@[i]@ == vs[i].uri);
                }
            }
        }
        out
    }

    /// How many documents there are.
    pub fn len(&self) -> (r: usize)
        requires
            self.wf(),
        ensures
            r == self@.dom().len(),
    {
        let us = self.uris();
        proof {
            text::views(us@).unique_seq_to_set();
        }
        us.len()
    }

    /// Whether there are no documents.
    pub fn is_empty(&self) -> (r: bool)
        requires
            self.wf(),
        ensures
            r == (self@ == Map::<Seq<char>, records::DocView>::empty()),
    {
        proof {
            let vs = lists::views_of(self.records@);
            if vs.len() == 0 {
                assert(self@ =~= Map::<Seq<char>, records::DocView>::empty());
            } else {
                lemma_by_uri(vs, 0);
            }
        }
        self.records.len() == 0
    }
}

proof fn lemma_upserted(
    before: Seq<records::DocView>,
    after: Seq<records::DocView>,
    i: int,
    v: records::DocView,
)
    requires
        distinct_uris(before),
        distinct_uris(after),
        0 <= i <= before.len(),
        i < before.len() ==> after == before.update(i, v) && before[i].uri == v.uri,
        i == before.len() ==> after == before.push(v),
    ensures
        by_uri(after) == by_uri(before).insert(v.uri, v),
{
    let (m, n) = (by_uri(before).insert(v.uri, v), by_uri(after));
    lemma_by_uri(after, i);
    assert forall|u: Seq<char>| #[trigger] n.contains_key(u) implies m.contains_key(u) && n[u]
        == m[u] by {
        let k = choose|k: int| 0 <= k < after.len() && (#[trigger] after[k]).uri == u;
        lemma_by_uri(after, k);
        if k != i {
            assert(before[k] == after[k]);
            lemma_by_uri(before, k);
            if k < i {
                assert(after[k].uri != after[i].uri);
            } else {
                assert(after[i].uri != after[k].uri);
            }
        }
    }
    assert forall|u: Seq<char>| #[trigger] m.contains_key(u) implies n.contains_key(u) by {
        if u != v.uri {
            let k = choose|k: int| 0 <= k < before.len() && (#[trigger] before[k]).uri == u;
            assert(after[k] == before[k]);
        }
    }
    assert(n =~= m);
}

proof fn lemma_removed(before: Seq<records::DocView>, i: int)
    requires
        distinct_uris(before),
        0 <= i < before.len(),
    ensures
        distinct_uris(before.remove(i)),
        by_uri(before.remove(i)) == by_uri(before).remove(before[i].uri),
{
    let after = before.remove(i);
    assert forall|a: int, b: int| 0 <= a < b < after.len() implies (#[trigger] after[a]).uri != (
    #[trigger] after[b]).uri by {
        let x = if a < i {
            a
        } else {
            a + 1
        };
        let y = if b < i {
            b
        } else {
            b + 1
        };
        assert(before[x].uri != before[y].uri);
    }
    let (m, n) = (by_uri(before).remove(before[i].uri), by_uri(after));
    assert forall|u: Seq<char>| #[trigger] n.contains_key(u) implies m.contains_key(u) && n[u]
        == m[u] by {
        let k = choose|k: int| 0 <= k < after.len() && (#[trigger] after[k]).uri == u;
        lemma_by_uri(after, k);
        let x = if k < i {
            k
        } else {
            k + 1
        };
        assert(before[x] == after[k]);
        lemma_by_uri(before, x);
        if x < i {
            assert(before[x].uri != before[i].uri);
        } else {
            assert(before[i].uri != before[x].uri);
        }
    }
    assert forall|u: Seq<char>| #[trigger] m.contains_key(u) implies n.contains_key(u) by {
        let x = choose|x: int| 0 <= x < before.len() && (#[trigger] before[x]).uri == u;
        let k = if x < i {
            x
        } else {
            x - 1
        };
        assert(after[k] == before[x]);
    }
    assert(n =~= m);
}

impl Default for DocumentIndex {
    /// An index without documents.
    fn default() -> (r: Self)
        ensures
            r.wf(),
            r@ == Map::<Seq<char>, records::DocView>::empty(),
    {
        Self::new()
    }
}

/// An index holds finitely many documents.
pub proof fn indexes_are_finite(index: DocumentIndex)
    ensures
        index@.dom().finite(),
{
    let records = lists::views_of(index.records@);
    let uris = records.map_values(|r: records::DocView| r.uri);
    vstd::seq_lib::seq_to_set_is_finite(uris);
    assert forall|u: Seq<char>| index@.dom().contains(u) implies uris.to_set().contains(u) by {
        let i = choose|i: int| 0 <= i < records.len() && (#[trigger] records[i]).uri == u;
        assert(uris[i] == u);
    }
    vstd::set_lib::lemma_set_subset_finite(uris.to_set(), index@.dom());
}

} // verus!
