//! What is configured at run time.

use super::schema::IndexingPolicyConfig;
use crate::error::{Error, ErrorView};
use crate::text;
use vstd::prelude::*;

verus! {

/// A store that was created at run time.
#[derive(Debug, Clone, PartialEq)]
pub struct RuntimeStore {
    pub name: String,
    pub id: String,
    pub visibility: String,
    pub backend: String,
    /// The store's own policy; without one it inherits the default.
    pub indexing: Option<IndexingPolicyConfig>,
}

/// A source that was added at run time.
#[derive(Debug, Clone, PartialEq)]
pub struct RuntimeSource {
    pub id: String,
    /// The store that it feeds.
    pub store_name: String,
    /// `path` or `url`.
    pub kind: String,
    pub root: Option<String>,
    pub url: Option<String>,
    pub include_globs: Vec<String>,
    pub exclude_globs: Vec<String>,
    pub preset: String,
}

/// Whether a source comes from this directory or URL, and feeds the store if one is given.
pub open spec fn comes_from(
    source: RuntimeSource,
    value: Seq<char>,
    store_name: Option<Seq<char>>,
) -> bool {
    &&& (store_name matches Some(s) ==> source.store_name@ == s)
    &&& (text::opt_view(source.root) == Some(value) || text::opt_view(source.url) == Some(value))
}

fn is_text(s: &Option<String>, value: &str) -> (r: bool)
    ensures
        r == (text::opt_view(*s) == Some(value@)),
{
    match s {
        Some(s) => text::str_eq(s.as_str(), value),
        None => false,
    }
}

/// Position of the first source that comes from this directory or URL, of those that feed the
/// store if one is given.
pub fn find_source_by_root_or_url(
    sources: &[RuntimeSource],
    value: &str,
    store_name: Option<&str>,
) -> (r: Option<usize>)
    ensures
        match r {
            Some(i) => {
                &&& i < sources@.len()
                &&& comes_from(sources@[i as int], value@, text::opt_str_view(store_name))
                &&& forall|j: int|
                    0 <= j < i ==> !comes_from(
                        #[trigger] sources@[j],
                        value@,
                        text::opt_str_view(store_name),
                    )
            },
            None => forall|j: int|
                0 <= j < sources@.len() ==> !comes_from(
                    #[trigger] sources@[j],
                    value@,
                    text::opt_str_view(store_name),
                ),
        },
{
    let mut i: usize = 0;
    while i < sources.len()
        invariant
            i <= sources@.len(),
            forall|j: int|
                0 <= j < i ==> !comes_from(
                    #[trigger] sources@[j],
                    value@,
                    text::opt_str_view(store_name),
                ),
        decreases sources.len() - i,
    {
        let source = &sources[i];
        let in_store = match store_name {
            Some(s) => text::str_eq(source.store_name.as_str(), s),
            None => true,
        };
        if in_store && (is_text(&source.root, value) || is_text(&source.url, value)) {
            return Some(i);
        }
        i += 1;
    }
    None
}

// ---------------------------------------------------------------------------
// The database
// ---------------------------------------------------------------------------
/// What follows an attempt to open the database that failed.
#[derive(Debug, Clone, Copy, PartialEq, Eq, Structural)]
pub enum OpenStep {
    /// Try again after so many milliseconds.
    Retry { delay_ms: u64 },
    /// Report the error.
    GiveUp,
}

/// What follows the `attempt`th attempt to open the database, counted from 0, that failed with
/// this error. Only a lock is worth waiting for, and longer each time.
pub fn after_failed_open(attempt: u32, error: &Error) -> (r: OpenStep)
    ensures
        r == (if error@ == ErrorView::RuntimeStateLocked && attempt == 0 {
            OpenStep::Retry { delay_ms: 200 }
        } else if error@ == ErrorView::RuntimeStateLocked && attempt == 1 {
            OpenStep::Retry { delay_ms: 400 }
        } else {
            OpenStep::GiveUp
        }),
{
    match error {
        Error::RuntimeStateLocked => if attempt == 0 {
            OpenStep::Retry { delay_ms: 200 }
        } else if attempt == 1 {
            OpenStep::Retry { delay_ms: 400 }
        } else {
            OpenStep::GiveUp
        },
        _ => OpenStep::GiveUp,
    }
}

/// What an error of the database is reported as: one that is locked can be tried again.
pub fn database_error(locked: bool, message: &str) -> (r: Error)
    ensures
        r@ == (if locked {
            ErrorView::RuntimeStateLocked
        } else {
            ErrorView::Internal {
                message: "runtime-state DB error: "@ + message@,
                correlation_id: "sqlite"@,
            }
        }),
{
    if locked {
        Error::RuntimeStateLocked
    } else {
        Error::Internal {
            message: text::concat("runtime-state DB error: ", message),
            correlation_id: "sqlite".to_owned(),
        }
    }
}

} // verus!
