//! Which files of a directory tree are ingested.

use crate::error::{Error, ErrorView};
use crate::os_path::OsPath;
use crate::text;
use globset::{GlobBuilder, GlobSet, GlobSetBuilder};
use vstd::prelude::*;

verus! {

// ---------------------------------------------------------------------------
// Glob patterns
// ---------------------------------------------------------------------------
/// `globset::GlobSet`.
#[verifier::external_type_specification]
#[verifier::external_body]
pub struct ExGlobSet(globset::GlobSet);

/// `globset::GlobSetBuilder`.
#[verifier::external_type_specification]
#[verifier::external_body]
pub struct ExGlobSetBuilder(globset::GlobSetBuilder);

/// The patterns that a builder holds.
pub uninterp spec fn builder_patterns(b: GlobSetBuilder) -> Seq<Seq<char>>;

/// The patterns that a set was built of.
pub uninterp spec fn set_patterns(s: GlobSet) -> Seq<Seq<char>>;

/// Why a pattern is refused; `None` for a valid one.
pub uninterp spec fn glob_error(pattern: Seq<char>) -> Option<Seq<char>>;

/// Why a set of valid patterns cannot be built; `None` where it can.
pub uninterp spec fn glob_set_error(patterns: Seq<Seq<char>>) -> Option<Seq<char>>;

/// Whether a pattern matches a path, where `*` and `?` do not match `/`. Paths are those of
/// systems that separate names by `/`.
pub uninterp spec fn glob_matches(pattern: Seq<char>, path: Seq<char>) -> bool;

/// Wraps `globset::GlobSetBuilder::new`: a builder without patterns.
#[verifier::external_body]
fn new_builder() -> (r: GlobSetBuilder)
    ensures
        builder_patterns(r) == Seq::<Seq<char>>::empty(),
{
    GlobSetBuilder::new()
}

/// Wraps `globset::GlobBuilder::build` with `literal_separator`, and `GlobSetBuilder::add`:
/// a valid pattern is added behind the others, for an invalid one the text of the error is
/// returned and nothing is added. Whether it is valid depends on the pattern alone.
#[verifier::external_body]
fn add_glob(b: &mut GlobSetBuilder, pattern: &str) -> (r: Result<(), String>)
    ensures
        match r {
            Ok(_) => glob_error(pattern@) is None && builder_patterns(*final(b))
                == builder_patterns(*old(b)).push(pattern@),
            Err(e) => glob_error(pattern@) == Some(e@) && builder_patterns(*final(b))
                == builder_patterns(*old(b)),
        },
{
    match GlobBuilder::new(pattern).literal_separator(true).build() {
        Ok(glob) => {
            b.add(glob);
            Ok(())
        },
        Err(e) => Err(e.to_string()),
    }
}

/// Wraps `globset::GlobSetBuilder::build`: a set of the builder's patterns, or the text of
/// the error. Which of the two depends on the patterns alone.
#[verifier::external_body]
fn finish_set(b: &GlobSetBuilder) -> (r: Result<GlobSet, String>)
    ensures
        match r {
            Ok(s) => glob_set_error(builder_patterns(*b)) is None && set_patterns(s)
                == builder_patterns(*b),
            Err(e) => glob_set_error(builder_patterns(*b)) == Some(e@),
        },
{
    b.build().map_err(|e| e.to_string())
}

/// Wraps `globset::GlobSet::is_match`: whether any pattern of the set matches the path.
#[verifier::external_body]
fn set_matches(s: &GlobSet, path: &str) -> (r: bool)
    ensures
        r == (exists|i: int|
            (0 <= i && i < set_patterns(*s).len() && #[trigger] glob_matches(
                set_patterns(*s)[i],
                path@,
            ))),
{
    s.is_match(path)
}

/// Whether one of the patterns matches the path.
pub open spec fn any_matches(patterns: Seq<Seq<char>>, path: Seq<char>) -> bool {
    exists|i: int| 0 <= i < patterns.len() && #[trigger] glob_matches(patterns[i], path)
}

/// The error of the first invalid pattern from `i` on, or else of the whole set.
pub open spec fn glob_failure(patterns: Seq<Seq<char>>, i: int) -> Option<ErrorView>
    decreases patterns.len() - i,
{
    if i < 0 || i >= patterns.len() {
        match glob_set_error(patterns) {
            Some(e) => Some(
                ErrorView::InvalidConfig { message: "failed to build glob set: "@ + e },
            ),
            None => None,
        }
    } else {
        match glob_error(patterns[i]) {
            Some(e) => Some(
                ErrorView::InvalidConfig {
                    message: "invalid glob pattern '"@ + patterns[i] + "': "@ + e,
                },
            ),
            None => glob_failure(patterns, i + 1),
        }
    }
}

/// A set of glob patterns. `*` and `?` do not match `/`.
pub fn build_glob_set(patterns: &[String]) -> (r: Result<GlobSet, Error>)
    ensures
        match glob_failure(text::views(patterns@), 0) {
            Some(e) => r is Err && r->Err_0@ == e,
            None => r is Ok && set_patterns(r->Ok_0) == text::views(patterns@),
        },
{
    let ghost vs = text::views(patterns@);
    let mut b = new_builder();
    let mut i: usize = 0;
    assert(vs.take(0) =~= Seq::<Seq<char>>::empty());
    while i < patterns.len()
        invariant
            i <= patterns@.len(),
            vs == text::views(patterns@),
            builder_patterns(b) == vs.take(i as int),
            glob_failure(vs, 0) == glob_failure(vs, i as int),
        decreases patterns.len() - i,
    {
        match add_glob(&mut b, patterns[i].as_str()) {
            Ok(_) => {},
            Err(e) => {
                let message = text::concat3("invalid glob pattern '", patterns[i].as_str(), "': ");
                return Err(
                    Error::InvalidConfig { message: text::concat(message.as_str(), e.as_str()) },
                );
            },
        }
        assert(vs.take(i + 1) =~= vs.take(i as int).push(vs[i as int]));
        i += 1;
    }
    assert(vs.take(i as int) =~= vs);
    match finish_set(&b) {
        Ok(s) => Ok(s),
        Err(e) => Err(
            Error::InvalidConfig { message: text::concat("failed to build glob set: ", e.as_str()) },
        ),
    }
}

/// Whether a pattern is valid and matches the path.
pub fn glob_match(pattern: &str, path: &str) -> (r: bool)
    ensures
        r == (glob_failure(seq![pattern@], 0) is None && glob_matches(pattern@, path@)),
{
    let mut patterns: Vec<String> = Vec::new();
    patterns.push(pattern.to_owned());
    assert(text::views(patterns@) =~= seq![pattern@]);
    match build_glob_set(patterns.as_slice()) {
        Ok(s) => {
            assert(seq![pattern@][0] == pattern@);
            set_matches(&s, path)
        },
        Err(_) => false,
    }
}

// ---------------------------------------------------------------------------
// Directory entries
// ---------------------------------------------------------------------------
/// What a directory entry is.
#[derive(Debug, Clone, Copy, PartialEq, Eq, Structural)]
pub enum EntryKind {
    Directory,
    File,
    Other,
}

/// What to do with a directory entry.
#[derive(Debug, Clone, Copy, PartialEq, Eq, Structural)]
pub enum EntryAction {
    /// Leave it alone.
    Skip,
    /// Look at what is in it.
    Descend,
    /// Ingest it.
    Take,
}

/// What to do with an entry, by what the patterns say of it.
pub open spec fn action_for(
    excluded: bool,
    kind: EntryKind,
    everything: bool,
    included: bool,
) -> EntryAction {
    if excluded {
        EntryAction::Skip
    } else {
        match kind {
            EntryKind::Directory => EntryAction::Descend,
            EntryKind::File => if everything || included {
                EntryAction::Take
            } else {
                EntryAction::Skip
            },
            EntryKind::Other => EntryAction::Skip,
        }
    }
}

/// What to do with an entry: what is excluded is left alone, directories are entered, and
/// files are taken if they are included or nothing in particular is.
pub fn decide_entry(excluded: bool, kind: EntryKind, everything: bool, included: bool) -> (r:
    EntryAction)
    ensures
        r == action_for(excluded, kind, everything, included),
{
    if excluded {
        return EntryAction::Skip;
    }
    match kind {
        EntryKind::Directory => EntryAction::Descend,
        EntryKind::File => if everything || included {
            EntryAction::Take
        } else {
            EntryAction::Skip
        },
        EntryKind::Other => EntryAction::Skip,
    }
}

/// The patterns of a path source.
pub struct PathFilters {
    include_set: GlobSet,
    include_empty: bool,
    exclude_set: GlobSet,
}

impl PathFilters {
    /// The patterns of what to take.
    pub closed spec fn including(self) -> Seq<Seq<char>> {
        set_patterns(self.include_set)
    }

    /// Whether everything that is not excluded is taken.
    pub closed spec fn everything(self) -> bool {
        self.include_empty
    }

    /// The patterns of what to leave alone.
    pub closed spec fn excluding(self) -> Seq<Seq<char>> {
        set_patterns(self.exclude_set)
    }

    /// Compiles the patterns. The first invalid one is reported, of those to take first.
    pub fn new(wanted: &[String], unwanted: &[String]) -> (r: Result<Self, Error>)
        ensures
            match (
                glob_failure(text::views(wanted@), 0),
                glob_failure(text::views(unwanted@), 0),
            ) {
                (Some(e), _) => r is Err && r->Err_0@ == e,
                (None, Some(e)) => r is Err && r->Err_0@ == e,
                (None, None) => {
                    &&& r is Ok
                    &&& r->Ok_0.including() == text::views(wanted@)
                    &&& r->Ok_0.excluding() == text::views(unwanted@)
                    &&& r->Ok_0.everything() == (wanted@.len() == 0)
                },
            },
    {
        let include_set = match build_glob_set(wanted) {
            Ok(s) => s,
            Err(e) => return Err(e),
        };
        let exclude_set = match build_glob_set(unwanted) {
            Ok(s) => s,
            Err(e) => return Err(e),
        };
        Ok(PathFilters { include_set, include_empty: wanted.len() == 0, exclude_set })
    }

    /// What to do with a directory entry. It is excluded by its path below the root or by its
    /// name, and included by its path alone.
    pub fn decide(&self, relative: &str, name: Option<&str>, kind: EntryKind) -> (r: EntryAction)
        ensures
            r == action_for(
                any_matches(self.excluding(), relative@) || (name matches Some(n) && any_matches(
                    self.excluding(),
                    n@,
                )),
                kind,
                self.everything(),
                any_matches(self.including(), relative@),
            ),
    {
        let excluded = set_matches(&self.exclude_set, relative) || match name {
            Some(n) => set_matches(&self.exclude_set, n),
            None => false,
        };
        decide_entry(excluded, kind, self.include_empty, set_matches(&self.include_set, relative))
    }
}

/// A file to ingest.
#[derive(Debug, Clone, PartialEq, Eq)]
pub struct FoundFile {
    /// Absolute path.
    pub path: OsPath,
    /// `file://` URI.
    pub uri: String,
}

/// What looking through a path source found.
#[derive(Debug, Clone)]
pub enum PathEnumeration {
    /// The root is there; these are its files.
    Complete(Vec<FoundFile>),
    /// The root is not there. Nothing is known of the files below it.
    RootUnavailable,
}

impl PathEnumeration {
    /// The files that were found.
    pub open spec fn found(self) -> Seq<FoundFile> {
        match self {
            PathEnumeration::Complete(files) => files@,
            PathEnumeration::RootUnavailable => Seq::empty(),
        }
    }

    /// The files that were found; none where the root is not there.
    pub fn files(&self) -> (r: &[FoundFile])
        ensures
            r@ == self.found(),
    {
        match self {
            PathEnumeration::Complete(files) => files.as_slice(),
            PathEnumeration::RootUnavailable => {
                let none: &[FoundFile] = &[];
                assert(none@ =~= Seq::empty());
                none
            },
        }
    }
}

} // verus!
