//! The parts of a citation that do not depend on scores.

use crate::ids::UlidId;
use vstd::prelude::*;

verus! {

/// The store that a cited chunk is in.
#[derive(Debug, Clone, PartialEq, Eq)]
pub struct CitationStore {
    pub id: UlidId,
    pub name: String,
}

/// Where a cited chunk came from.
#[derive(Debug, Clone, PartialEq, Eq)]
pub struct CitationProvenance {
    /// When the document was fetched.
    pub fetched_at: String,
    /// Hash of the document's text.
    pub content_hash: String,
}

} // verus!
