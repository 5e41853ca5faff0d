//! Paths as the operating system holds them.

use vstd::prelude::*;
use vstd::slice::slice_to_vec;
use vstd::utf8::encode_utf8;

verus! {

/// The byte between the names of a path: `/`.
pub const SEPARATOR: u8 = 47;

/// A path: bytes that need not be UTF-8, with `/` between names.
#[derive(Debug, Clone, PartialEq, Eq)]
pub struct OsPath {
    pub bytes: Vec<u8>,
}

impl View for OsPath {
    type V = Seq<u8>;

    open spec fn view(&self) -> Seq<u8> {
        self.bytes@
    }
}

/// An optional path as a mathematical value.
pub open spec fn opt_path(p: Option<OsPath>) -> Option<Seq<u8>> {
    match p {
        Some(p) => Some(p@),
        None => None,
    }
}

/// The path of `name` in the directory `base`; an absolute `name` stands for itself.
pub open spec fn path_join(base: Seq<u8>, name: Seq<char>) -> Seq<u8> {
    let n = encode_utf8(name);
    if n.len() > 0 && n[0] == SEPARATOR {
        n
    } else if base.len() == 0 || base.last() == SEPARATOR {
        base + n
    } else {
        base.push(SEPARATOR) + n
    }
}

impl OsPath {
    /// The path that a text spells.
    pub fn from_text(text: &str) -> (r: OsPath)
        ensures
            r@ == encode_utf8(text@),
    {
        OsPath { bytes: slice_to_vec(text.as_bytes()) }
    }

    /// The same path.
    pub fn copied(&self) -> (r: OsPath)
        ensures
            r@ == self@,
    {
        OsPath { bytes: slice_to_vec(self.bytes.as_slice()) }
    }

    /// Whether two paths are the same, byte by byte.
    pub fn same_as(&self, other: &OsPath) -> (r: bool)
        ensures
            r == (self@ == other@),
    {
        if self.bytes.len() != other.bytes.len() {
            return false;
        }
        let mut i: usize = 0;
        while i < self.bytes.len()
            invariant
                i <= self.bytes.len(),
                self.bytes.len() == other.bytes.len(),
                forall|j: int| 0 <= j < i ==> self.bytes@[j] == other.bytes@[j],
            decreases self.bytes.len() - i,
        {
            if self.bytes[i] != other.bytes[i] {
                return false;
            }
            i += 1;
        }
        assert(self@ =~= other@);
        true
    }

    /// The path of `name` in this directory.
    pub fn join(&self, name: &str) -> (r: OsPath)
        ensures
            r@ == path_join(self@, name@),
    {
        let n = name.as_bytes();
        if n.len() > 0 && n[0] == SEPARATOR {
            return Self::from_text(name);
        }
        let mut bytes = slice_to_vec(self.bytes.as_slice());
        if bytes.len() > 0 && bytes[bytes.len() - 1] != SEPARATOR {
            bytes.push(SEPARATOR);
        }
        bytes.extend_from_slice(n);
        OsPath { bytes }
    }
}

} // verus!
