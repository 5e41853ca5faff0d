//! The parts of a URL that the library looks at.

use crate::text;
use vstd::prelude::*;

verus! {

/// Parts of a URL.
#[derive(Debug, Clone, PartialEq, Eq)]
pub struct UrlParts {
    pub scheme: String,
    /// Whether the URL names a host.
    pub has_host: bool,
    /// What follows the last `/` of its path, where the path starts with one.
    pub last_segment: Option<String>,
}

/// [`UrlParts`] as a mathematical value.
pub struct PartsView {
    pub scheme: Seq<char>,
    pub has_host: bool,
    pub last_segment: Option<Seq<char>>,
}

/// The view of what [`parse_url`] returns.
pub open spec fn parts_view(p: Option<UrlParts>) -> Option<PartsView> {
    match p {
        Some(p) => Some(
            PartsView {
                scheme: p.scheme@,
                has_host: p.has_host,
                last_segment: text::opt_view(p.last_segment),
            },
        ),
        None => None,
    }
}

/// The parts of a URL; nothing for a text that is no URL.
pub uninterp spec fn url_parts(s: Seq<char>) -> Option<PartsView>;

/// Wraps `url::Url::parse`, with `Url::scheme`, `Url::host_str` and the last item of
/// `Url::path_segments` of what it returns; they depend on the text alone.
#[verifier::external_body]
pub(crate) fn parse_url(s: &str) -> (r: Option<UrlParts>)
    ensures
        parts_view(r) == url_parts(s@),
{
    let url = url::Url::parse(s).ok()?;
    Some(UrlParts {
        scheme: url.scheme().to_string(),
        has_host: url.host_str().is_some(),
        last_segment: url.path_segments().and_then(|mut p| p.next_back().map(|x| x.to_string())),
    })
}

/// The file name that the last segment of a path is; an empty one is none.
pub open spec fn name_in(parts: Option<PartsView>) -> Option<Seq<char>> {
    match parts {
        Some(p) => match p.last_segment {
            Some(s) => if s.len() == 0 {
                None
            } else {
                Some(s)
            },
            None => None,
        },
        None => None,
    }
}

/// The file name that a URL's path ends in, given the parts of the URL.
pub fn filename_hint(parts: Option<UrlParts>) -> (r: Option<String>)
    ensures
        text::opt_view(r) == name_in(parts_view(parts)),
{
    match parts {
        Some(p) => match p.last_segment {
            Some(s) => if s.as_str().is_empty() {
                None
            } else {
                Some(s)
            },
            None => None,
        },
        None => None,
    }
}

/// The file name that a URL's path ends in; `None` where it ends in `/` or is no path.
pub fn filename_hint_from_uri(uri: &str) -> (r: Option<String>)
    ensures
        text::opt_view(r) == name_in(url_parts(uri@)),
{
    filename_hint(parse_url(uri))
}

} // verus!
