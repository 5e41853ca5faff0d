//! Small value types shared by the modules.

use vstd::prelude::*;

verus! {

/// A byte range in a text.
#[derive(Debug, Clone, Copy, PartialEq, Eq, Structural)]
pub struct Span {
    pub start: usize,
    pub end: usize,
}

impl Span {
    pub fn new(start: usize, end: usize) -> (r: Span)
        ensures
            r.start == start,
            r.end == end,
    {
        Span { start, end }
    }
}

/// Who may see a store.
#[derive(Debug, Clone, Copy, PartialEq, Eq, Structural)]
pub enum StoreVisibility {
    /// Admins only.
    Private,
    /// Everyone who was granted it.
    Shared,
}

} // verus!
