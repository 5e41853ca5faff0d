//! JSON strings.

use vstd::prelude::*;

verus! {

/// The letter that stands for an escaped character behind a backslash; `u` for control
/// characters without a letter of their own.
pub open spec fn escape_letter(c: char) -> Option<char> {
    if c == '"' {
        Some('"')
    } else if c == '\\' {
        Some('\\')
    } else if c == '\x08' {
        Some('b')
    } else if c == '\t' {
        Some('t')
    } else if c == '\n' {
        Some('n')
    } else if c == '\x0c' {
        Some('f')
    } else if c == '\r' {
        Some('r')
    } else if (c as u32) < 0x20 {
        Some('u')
    } else {
        None
    }
}

/// A character as it stands in a JSON string.
pub open spec fn escaped_char(c: char) -> Seq<char> {
    match escape_letter(c) {
        None => seq![c],
        Some(l) => if l == 'u' {
            seq![
                '\\',
                'u',
                '0',
                '0',
                crate::ids::hex_digit(c as int / 16),
                crate::ids::hex_digit(c as int % 16),
            ]
        } else {
            seq!['\\', l]
        },
    }
}

/// A text as it stands in a JSON string.
pub open spec fn escaped(s: Seq<char>) -> Seq<char>
    decreases s.len(),
{
    if s.len() == 0 {
        Seq::empty()
    } else {
        escaped_char(s[0]) + escaped(s.drop_first())
    }
}

/// A text as a JSON string.
pub open spec fn quoted(s: Seq<char>) -> Seq<char> {
    seq!['"'] + escaped(s) + seq!['"']
}

/// Wraps `serde_json::to_string` of a string, which cannot fail: the text between quotes,
/// with quotes, backslashes and control characters escaped.
#[verifier::external_body]
pub(crate) fn json_string(s: &str) -> (r: String)
    ensures
        r@ == quoted(s@),
{
    serde_json::to_string(s).expect("a string can be serialized")
}

/// Escaped characters can be told apart from each other, and from a closing quote, by how
/// they begin.
proof fn lemma_escaped_char(a: char, b: char, x: Seq<char>, y: Seq<char>)
    requires
        escaped_char(a) + x == escaped_char(b) + y,
    ensures
        a == b,
        x == y,
{
    let (p, q) = (escaped_char(a), escaped_char(b));
    let t = p + x;
    assert(t == q + y);
    assert(t[0] == p[0] && t[0] == q[0]);
    if escape_letter(a) is Some && escape_letter(b) is Some {
        assert(t[1] == p[1] && t[1] == q[1]);
        if escape_letter(a) == Some('u') {
            assert(t[4] == p[4] && t[4] == q[4]);
            assert(t[5] == p[5] && t[5] == q[5]);
            lemma_hex_digit(a as int / 16, b as int / 16);
            lemma_hex_digit(a as int % 16, b as int % 16);
            assert(a as int == b as int);
        }
    }
    assert(a == b);
    assert(x =~= t.skip(p.len() as int));
    assert(y =~= t.skip(q.len() as int));
}

proof fn lemma_hex_digit(a: int, b: int)
    requires
        0 <= a < 16,
        0 <= b < 16,
        crate::ids::hex_digit(a) == crate::ids::hex_digit(b),
    ensures
        a == b,
{
}

/// No escaped character begins with a quote.
proof fn lemma_no_quote(c: char)
    ensures
        escaped_char(c).len() > 0,
        escaped_char(c)[0] != '"',
{
}

proof fn lemma_escaped_injective(a: Seq<char>, b: Seq<char>, x: Seq<char>, y: Seq<char>)
    requires
        escaped(a) + seq!['"'] + x == escaped(b) + seq!['"'] + y,
    ensures
        a == b,
        x == y,
    decreases a.len(),
{
    let q = seq!['"'];
    let t = escaped(a) + q + x;
    if a.len() > 0 {
        lemma_no_quote(a[0]);
        assert(t[0] == escaped_char(a[0])[0]);
    } else {
        assert(t[0] == '"');
    }
    if b.len() > 0 {
        lemma_no_quote(b[0]);
        assert(t[0] == escaped_char(b[0])[0]);
    } else {
        assert((escaped(b) + q + y)[0] == '"');
    }
    assert((a.len() == 0) == (b.len() == 0));
    if a.len() > 0 {
        let (u, v) = (escaped(a.drop_first()) + q + x, escaped(b.drop_first()) + q + y);
        assert(t =~= escaped_char(a[0]) + u);
        assert(escaped(b) + q + y =~= escaped_char(b[0]) + v);
        lemma_escaped_char(a[0], b[0], u, v);
        lemma_escaped_injective(a.drop_first(), b.drop_first(), x, y);
        assert(a =~= seq![a[0]] + a.drop_first());
        assert(b =~= seq![b[0]] + b.drop_first());
    } else {
        assert(a =~= b);
        assert(x =~= t.skip(1));
        assert(y =~= t.skip(1));
    }
}

/// A JSON string can be read back, whatever follows it.
pub proof fn quoted_is_injective(a: Seq<char>, b: Seq<char>, x: Seq<char>, y: Seq<char>)
    requires
        quoted(a) + x == quoted(b) + y,
    ensures
        a == b,
        x == y,
{
    let q = seq!['"'];
    let t = quoted(a) + x;
    assert(t.skip(1) =~= escaped(a) + q + x);
    assert((quoted(b) + y).skip(1) =~= escaped(b) + q + y);
    lemma_escaped_injective(a, b, x, y);
}

} // verus!
