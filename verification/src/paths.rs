//! The names in file paths, as texts with `/` between their components.

use crate::text;
use vstd::prelude::*;
use vstd::slice::slice_subrange;

verus! {

/// Length of `s` without trailing slashes and `/.` components.
pub open spec fn stripped_len(s: Seq<char>, n: int) -> int
    decreases n,
{
    if n <= 0 {
        0
    } else if s[n - 1] == '/' {
        stripped_len(s, n - 1)
    } else if n >= 2 && s[n - 1] == '.' && s[n - 2] == '/' {
        stripped_len(s, n - 1)
    } else {
        n
    }
}

/// Position right after the last `c` in `s[..n]`, or 0 where there is none.
pub open spec fn after_last(s: Seq<char>, c: char, n: int) -> int
    decreases n,
{
    if n <= 0 {
        0
    } else if s[n - 1] == c {
        n
    } else {
        after_last(s, c, n - 1)
    }
}

/// The last component of a path, as a range of characters.
pub open spec fn last_component(s: Seq<char>) -> (int, int) {
    let n = stripped_len(s, s.len() as int);
    (after_last(s, '/', n), n)
}

/// The name of the file or directory that a path leads to. A path that ends in `..`, or
/// has no components but `.`, has none.
pub open spec fn file_name(s: Seq<char>) -> Option<Seq<char>> {
    let (a, b) = last_component(s);
    let c = s.subrange(a, b);
    if c.len() == 0 || c == "."@ || c == ".."@ {
        None
    } else {
        Some(c)
    }
}

/// What follows the last dot of a file name. A name without a dot, or whose only dot is
/// its first character, has no extension.
pub open spec fn name_extension(name: Seq<char>) -> Option<Seq<char>> {
    let d = after_last(name, '.', name.len() as int);
    if d <= 1 {
        None
    } else {
        Some(name.skip(d))
    }
}

/// The extension of the file that a path leads to.
pub open spec fn extension(s: Seq<char>) -> Option<Seq<char>> {
    match file_name(s) {
        Some(n) => name_extension(n),
        None => None,
    }
}

/// Position right after the last `c` in `s[..n]`, or 0 where there is none.
pub fn find_after_last(s: &[char], c: char, n: usize) -> (r: usize)
    requires
        n <= s.len(),
    ensures
        r == after_last(s@, c, n as int),
        r <= n,
{
    let mut i: usize = n;
    while i > 0 && s[i - 1] != c
        invariant
            i <= n <= s.len(),
            after_last(s@, c, n as int) == after_last(s@, c, i as int),
        decreases i,
    {
        i -= 1;
    }
    i
}

/// The name of the file or directory that a path leads to.
pub fn file_name_of(path: &str) -> (r: Option<String>)
    ensures
        text::opt_view(r) == file_name(path@),
{
    let v = text::chars_of(path);
    let s = v.as_slice();
    let mut n: usize = s.len();
    while n > 0 && (s[n - 1] == '/' || (n >= 2 && s[n - 1] == '.' && s[n - 2] == '/'))
        invariant
            n <= s.len(),
            stripped_len(s@, s.len() as int) == stripped_len(s@, n as int),
        decreases n,
    {
        n -= 1;
    }
    let a = find_after_last(s, '/', n);
    let c = slice_subrange(s, a, n);
    if c.len() == 0 || text::chars_eq(c, ".") || text::chars_eq(c, "..") {
        None
    } else {
        Some(text::string_of(c))
    }
}

/// What follows the last dot of a file name.
pub fn extension_of_name(name: &str) -> (r: Option<String>)
    ensures
        text::opt_view(r) == name_extension(name@),
{
    let v = text::chars_of(name);
    let s = v.as_slice();
    let d = find_after_last(s, '.', s.len());
    if d <= 1 {
        None
    } else {
        assert(s@.subrange(d as int, s@.len() as int) =~= name@.skip(d as int));
        Some(text::string_of(slice_subrange(s, d, s.len())))
    }
}

/// The extension of the file that a path leads to.
pub fn extension_of(path: &str) -> (r: Option<String>)
    ensures
        text::opt_view(r) == extension(path@),
{
    match file_name_of(path) {
        Some(n) => extension_of_name(n.as_str()),
        None => None,
    }
}

} // verus!
