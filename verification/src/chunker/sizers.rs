//! Size metrics for chunking.

use crate::text;
use vstd::prelude::*;

verus! {

/// A size metric of texts: characters, or the tokens of a model.
///
/// A metric is a function of the text: `measure` names it, and `size` computes it.
pub trait ChunkSizer {
    /// The metric.
    spec fn measure(&self) -> spec_fn(Seq<char>) -> nat;

    /// The size of `text` in this metric's units.
    fn size(&self, text: &str) -> (r: usize)
        ensures
            r == (self.measure())(text@),
    ;
}

/// Counts Unicode scalar values.
pub struct CharSizer;

impl ChunkSizer for CharSizer {
    open spec fn measure(&self) -> spec_fn(Seq<char>) -> nat {
        |t: Seq<char>| t.len()
    }

    fn size(&self, text: &str) -> (r: usize) {
        text::char_count(text)
    }
}

/// Whether a function can count tokens: it takes every text, and what it returns is
/// settled by the text's characters.
pub open spec fn counts_tokens<F: Fn(&str) -> usize>(f: F) -> bool {
    &&& forall|s: &str| call_requires(f, (s,))
    &&& forall|s: &str, t: &str, m: usize, n: usize|
        s@ == t@ && call_ensures(f, (s,), m) && call_ensures(f, (t,), n) ==> m == n
}

/// A size that `f` gives to a text with the characters `t`.
pub open spec fn token_count<F: Fn(&str) -> usize>(f: F, t: Seq<char>, n: usize) -> bool {
    exists|s: &str| s@ == t && #[trigger] call_ensures(f, (s,), n)
}

/// Sizer backed by a token-counting function, such as a model's tokenizer.
pub struct TokenSizer<F: Fn(&str) -> usize> {
    f: F,
}

impl<F: Fn(&str) -> usize> TokenSizer<F> {
    #[verifier::type_invariant]
    closed spec fn inv(self) -> bool {
        counts_tokens(self.f)
    }

    /// The counting function.
    pub closed spec fn counter(self) -> F {
        self.f
    }

    /// A sizer from a token-counting function.
    pub fn new(f: F) -> (r: Self)
        requires
            counts_tokens(f),
        ensures
            r.counter() == f,
    {
        TokenSizer { f }
    }
}

impl<F: Fn(&str) -> usize> ChunkSizer for TokenSizer<F> {
    open spec fn measure(&self) -> spec_fn(Seq<char>) -> nat {
        |t: Seq<char>| (choose|n: usize| token_count(self.counter(), t, n)) as nat
    }

    fn size(&self, text: &str) -> (r: usize) {
        proof {
            use_type_invariant(self);
        }
        let n: usize = (self.f)(text);
        proof {
            assert(token_count(self.counter(), text@, n));
            let m = choose|m: usize| token_count(self.counter(), text@, m);
            assert(token_count(self.counter(), text@, m));
            let s = choose|s: &str| s@ == text@ && #[trigger] call_ensures(self.f, (s,), m);
            assert(call_ensures(self.f, (s,), m));
        }
        n
    }
}

} // verus!
