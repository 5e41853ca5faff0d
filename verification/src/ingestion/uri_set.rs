//! Sets of URIs.

use crate::text;
use vstd::prelude::*;

verus! {

/// A set of URIs.
pub struct UriSet {
    uris: Vec<String>,
}

impl View for UriSet {
    type V = Set<Seq<char>>;

    closed spec fn view(&self) -> Set<Seq<char>> {
        text::views(self.uris@).to_set()
    }
}

impl UriSet {
    /// No URI is in the list twice.
    pub closed spec fn wf(self) -> bool {
        text::views(self.uris@).no_duplicates()
    }

    /// The empty set.
    pub fn new() -> (r: Self)
        ensures
            r.wf(),
            r@ == Set::<Seq<char>>::empty(),
    {
        let r = UriSet { uris: Vec::new() };
        assert(text::views(r.uris@).to_set() =~= Set::<Seq<char>>::empty());
        r
    }

    /// Whether the URI is in the set.
    pub fn contains(&self, uri: &str) -> (r: bool)
        ensures
            r == self@.contains(uri@),
    {
        text::strings_contain(&self.uris, uri)
    }

    /// Puts a URI into the set.
    pub fn insert(&mut self, uri: &str)
        requires
            old(self).wf(),
        ensures
            final(self).wf(),
            final(self)@ == old(self)@.insert(uri@),
    {
        if text::strings_contain(&self.uris, uri) {
            assert(self@.insert(uri@) =~= self@);
            return;
        }
        let ghost before = self.uris@;
        self.uris.push(uri.to_owned());
        proof {
            let b = text::views(before);
            assert(text::views(self.uris@) =~= b.push(uri@));
            assert(b.push(uri@).to_set() =~= b.to_set().insert(uri@)) by {
                assert forall|u: Seq<char>| b.to_set().insert(uri@).contains(u) implies b.push(
                    uri@,
                ).to_set().contains(u) by {
                    if b.contains(u) {
                        let i = choose|i: int| 0 <= i < b.len() && b[i] == u;
                        assert(b.push(uri@)[i] == u);
                    } else {
                        assert(b.push(uri@)[b.len() as int] == u);
                    }
                }
            }
        }
    }

    /// How many URIs are in the set.
    pub fn len(&self) -> (r: usize)
        requires
            self.wf(),
        ensures
            r == self@.len(),
    {
        proof {
            text::views(self.uris@).unique_seq_to_set();
        }
        self.uris.len()
    }

    /// The URIs, each once.
    pub fn to_vec(&self) -> (r: Vec<String>)
        requires
            self.wf(),
        ensures
            text::views(r@).no_duplicates(),
            text::views(r@).to_set() == self@,
    {
        text::clone_strings(&self.uris)
    }
}

} // verus!
