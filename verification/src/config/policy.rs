//! Versions of indexing policies.
//!
//! The version is a hash of everything that decides how a document is indexed. Chunks carry
//! it, so that a store that was indexed under another policy can be told.

use super::schema;
use super::schema::IndexingPolicyConfig;
use crate::ids;
use crate::json;
use crate::text;
use vstd::prelude::*;

verus! {

/// The texts as JSON strings, each behind a comma.
pub open spec fn more_items(s: Seq<Seq<char>>) -> Seq<char>
    decreases s.len(),
{
    if s.len() == 0 {
        Seq::empty()
    } else {
        seq![','] + (json::quoted(s[0]) + more_items(s.drop_first()))
    }
}

/// The texts as the items of a JSON array.
pub open spec fn items(s: Seq<Seq<char>>) -> Seq<char> {
    if s.len() == 0 {
        Seq::empty()
    } else {
        json::quoted(s[0]) + more_items(s.drop_first())
    }
}

/// The pairs as members of a JSON object, each behind a comma.
pub open spec fn more_members(s: Seq<(Seq<char>, Seq<char>)>) -> Seq<char>
    decreases s.len(),
{
    if s.len() == 0 {
        Seq::empty()
    } else {
        seq![','] + (json::quoted(s[0].0) + (seq![':'] + (json::quoted(s[0].1) + more_members(
            s.drop_first(),
        ))))
    }
}

/// The pairs as the members of a JSON object.
pub open spec fn members(s: Seq<(Seq<char>, Seq<char>)>) -> Seq<char> {
    if s.len() == 0 {
        Seq::empty()
    } else {
        json::quoted(s[0].0) + (seq![':'] + (json::quoted(s[0].1) + more_members(s.drop_first())))
    }
}

/// The policy as JSON with sorted keys. Parsers keep their order, which decides between them.
pub open spec fn canonical(p: schema::PolicyView) -> Seq<char> {
    "{\"chunking\":{\"preset_overrides\":{"@ + (members(p.overrides)
        + ("}},\"embedding\":{\"model\":"@ + (json::quoted(p.model) + (",\"provider\":"@ + (
    json::quoted(p.provider) + ("},\"parsers\":["@ + (items(p.parsers) + "]}"@)))))))
}

/// The version of an indexing policy: the blake3 digest of its canonical JSON, in hex.
pub fn compute_policy_version(policy: &IndexingPolicyConfig) -> (r: String)
    ensures
        r@ == ids::content_hash_of(canonical(policy@)),
        ids::is_content_id(r@),
{
    let canonical = canonical_policy_json(policy);
    ids::content_hash(canonical.as_str())
}

/// Appends the overrides as the members of a JSON object.
fn push_members(out: &mut String, policy: &IndexingPolicyConfig)
    ensures
        final(out)@ == old(out)@ + members(policy@.overrides),
{
    let ghost s = policy@.overrides;
    let ghost whole = old(out)@ + members(s);
    let n: usize = policy.chunking.preset_overrides.len();
    if n == 0 {
        assert(whole =~= out@);
        return;
    }
    let mut i: usize = 0;
    assert(s.skip(0) =~= s);
    while i < n
        invariant
            i <= n,
            n == s.len(),
            s == policy@.overrides,
            i == 0 ==> out@ == old(out)@,
            i == 0 ==> whole == old(out)@ + members(s),
            i > 0 ==> out@ + more_members(s.skip(i as int)) == whole,
        decreases n - i,
    {
        let ghost before = out@;
        let (kind, preset) = policy.chunking.preset_overrides.entry(i);
        if i > 0 {
            out.push(',');
        }
        out.append(json::json_string(kind).as_str());
        out.push(':');
        out.append(json::json_string(preset).as_str());
        proof {
            let t = s.skip(i as int);
            assert(t[0] == s[i as int]);
            assert(t.drop_first() =~= s.skip(i + 1));
            if i == 0 {
                assert(t =~= s);
                assert(out@ + more_members(s.skip(1)) =~= whole);
            } else {
                assert(out@ + more_members(s.skip(i + 1)) =~= before + more_members(t));
            }
        }
        i += 1;
    }
    assert(s.skip(i as int) =~= Seq::<(Seq<char>, Seq<char>)>::empty());
    assert(out@ + Seq::<char>::empty() =~= out@);
}

/// Appends the texts as the items of a JSON array.
fn push_items(out: &mut String, texts: &Vec<String>)
    ensures
        final(out)@ == old(out)@ + items(text::views(texts@)),
{
    let ghost s = text::views(texts@);
    let ghost whole = old(out)@ + items(s);
    if texts.len() == 0 {
        assert(whole =~= out@);
        return;
    }
    let mut i: usize = 0;
    while i < texts.len()
        invariant
            i <= texts@.len(),
            s == text::views(texts@),
            i == 0 ==> out@ == old(out)@,
            i == 0 ==> whole == old(out)@ + items(s),
            i > 0 ==> out@ + more_items(s.skip(i as int)) == whole,
        decreases texts.len() - i,
    {
        let ghost before = out@;
        if i > 0 {
            out.push(',');
        }
        out.append(json::json_string(texts[i].as_str()).as_str());
        proof {
            let t = s.skip(i as int);
            assert(t[0] == s[i as int]);
            assert(t.drop_first() =~= s.skip(i + 1));
            if i == 0 {
                assert(t =~= s);
                assert(out@ + more_items(s.skip(1)) =~= whole);
            } else {
                assert(out@ + more_items(s.skip(i + 1)) =~= before + more_items(t));
            }
        }
        i += 1;
    }
    assert(s.skip(i as int) =~= Seq::<Seq<char>>::empty());
    assert(out@ + Seq::<char>::empty() =~= out@);
}

/// The policy as JSON with sorted keys.
fn canonical_policy_json(policy: &IndexingPolicyConfig) -> (r: String)
    ensures
        r@ == canonical(policy@),
{
    let ghost p = policy@;
    let ghost s4 = items(p.parsers) + "]}"@;
    let ghost s3 = "},\"parsers\":["@ + s4;
    let ghost s2 = json::quoted(p.provider) + s3;
    let ghost s1 = ",\"provider\":"@ + s2;
    let ghost s0 = json::quoted(p.model) + s1;
    let ghost rest = "}},\"embedding\":{\"model\":"@ + s0;
    let mut out = String::from_str("{\"chunking\":{\"preset_overrides\":{");
    proof {
        lemma_assoc(out@, members(p.overrides), rest);
    }
    push_members(&mut out, policy);
    proof {
        lemma_assoc(out@, "}},\"embedding\":{\"model\":"@, s0);
    }
    out.append("}},\"embedding\":{\"model\":");
    proof {
        lemma_assoc(out@, json::quoted(p.model), s1);
    }
    out.append(json::json_string(policy.embedding.model.as_str()).as_str());
    proof {
        lemma_assoc(out@, ",\"provider\":"@, s2);
    }
    out.append(",\"provider\":");
    proof {
        lemma_assoc(out@, json::quoted(p.provider), s3);
    }
    out.append(json::json_string(policy.embedding.provider.as_str()).as_str());
    proof {
        lemma_assoc(out@, "},\"parsers\":["@, s4);
    }
    out.append("},\"parsers\":[");
    proof {
        lemma_assoc(out@, items(p.parsers), "]}"@);
    }
    push_items(&mut out, &policy.parsers);
    out.append("]}");
    out
}

/// Texts can be put together in any grouping.
proof fn lemma_assoc(a: Seq<char>, b: Seq<char>, c: Seq<char>)
    ensures
        a + (b + c) == (a + b) + c,
{
    assert(a + (b + c) =~= (a + b) + c);
}

// ---------------------------------------------------------------------------
// Laws
// ---------------------------------------------------------------------------
/// A common beginning can be taken off.
proof fn lemma_same_rest(p: Seq<char>, x: Seq<char>, y: Seq<char>)
    requires
        p + x == p + y,
    ensures
        x == y,
{
    assert(x =~= (p + x).skip(p.len() as int));
    assert(y =~= (p + y).skip(p.len() as int));
}

proof fn lemma_more_items(a: Seq<Seq<char>>, b: Seq<Seq<char>>, x: Seq<char>, y: Seq<char>)
    requires
        more_items(a) + x == more_items(b) + y,
        x.len() > 0 && x[0] != ',',
        y.len() > 0 && y[0] != ',',
    ensures
        a == b,
        x == y,
    decreases a.len(),
{
    let (s, t) = (more_items(a) + x, more_items(b) + y);
    if a.len() == 0 {
        assert(s =~= x);
    }
    if b.len() == 0 {
        assert(t =~= y);
    }
    assert((a.len() == 0) == (b.len() == 0)) by {
        if a.len() > 0 {
            assert(s[0] == ',');
        }
        if b.len() > 0 {
            assert(t[0] == ',');
        }
    }
    if a.len() > 0 {
        let (u, v) = (more_items(a.drop_first()) + x, more_items(b.drop_first()) + y);
        assert(s =~= seq![','] + (json::quoted(a[0]) + u));
        assert(t =~= seq![','] + (json::quoted(b[0]) + v));
        lemma_same_rest(seq![','], json::quoted(a[0]) + u, json::quoted(b[0]) + v);
        json::quoted_is_injective(a[0], b[0], u, v);
        lemma_more_items(a.drop_first(), b.drop_first(), x, y);
        assert(a =~= seq![a[0]] + a.drop_first());
        assert(b =~= seq![b[0]] + b.drop_first());
    } else {
        assert(a =~= b);
    }
}

proof fn lemma_items(a: Seq<Seq<char>>, b: Seq<Seq<char>>, x: Seq<char>, y: Seq<char>)
    requires
        items(a) + x == items(b) + y,
        x.len() > 0 && x[0] == ']',
        y.len() > 0 && y[0] == ']',
    ensures
        a == b,
        x == y,
{
    let (s, t) = (items(a) + x, items(b) + y);
    if a.len() == 0 {
        assert(s =~= x);
    } else {
        assert(s[0] == '"');
    }
    if b.len() == 0 {
        assert(t =~= y);
    } else {
        assert(t[0] == '"');
    }
    if a.len() > 0 {
        let (u, v) = (more_items(a.drop_first()) + x, more_items(b.drop_first()) + y);
        assert(s =~= json::quoted(a[0]) + u);
        assert(t =~= json::quoted(b[0]) + v);
        json::quoted_is_injective(a[0], b[0], u, v);
        lemma_more_items(a.drop_first(), b.drop_first(), x, y);
        assert(a =~= seq![a[0]] + a.drop_first());
        assert(b =~= seq![b[0]] + b.drop_first());
    } else {
        assert(a =~= b);
    }
}

/// A member of a JSON object can be read back.
proof fn lemma_member(
    a: (Seq<char>, Seq<char>),
    b: (Seq<char>, Seq<char>),
    x: Seq<char>,
    y: Seq<char>,
)
    requires
        json::quoted(a.0) + (seq![':'] + (json::quoted(a.1) + x)) == json::quoted(b.0) + (seq![':']
            + (json::quoted(b.1) + y)),
    ensures
        a == b,
        x == y,
{
    let (u, v) = (json::quoted(a.1) + x, json::quoted(b.1) + y);
    json::quoted_is_injective(a.0, b.0, seq![':'] + u, seq![':'] + v);
    lemma_same_rest(seq![':'], u, v);
    json::quoted_is_injective(a.1, b.1, x, y);
}

proof fn lemma_more_members(
    a: Seq<(Seq<char>, Seq<char>)>,
    b: Seq<(Seq<char>, Seq<char>)>,
    x: Seq<char>,
    y: Seq<char>,
)
    requires
        more_members(a) + x == more_members(b) + y,
        x.len() > 0 && x[0] != ',',
        y.len() > 0 && y[0] != ',',
    ensures
        a == b,
        x == y,
    decreases a.len(),
{
    let (s, t) = (more_members(a) + x, more_members(b) + y);
    if a.len() == 0 {
        assert(s =~= x);
    } else {
        assert(s[0] == ',');
    }
    if b.len() == 0 {
        assert(t =~= y);
    } else {
        assert(t[0] == ',');
    }
    if a.len() > 0 {
        let (u, v) = (more_members(a.drop_first()) + x, more_members(b.drop_first()) + y);
        let c = json::quoted(a[0].0) + (seq![':'] + (json::quoted(a[0].1) + u));
        let d = json::quoted(b[0].0) + (seq![':'] + (json::quoted(b[0].1) + v));
        assert(s =~= seq![','] + c);
        assert(t =~= seq![','] + d);
        lemma_same_rest(seq![','], c, d);
        lemma_member(a[0], b[0], u, v);
        lemma_more_members(a.drop_first(), b.drop_first(), x, y);
        assert(a =~= seq![a[0]] + a.drop_first());
        assert(b =~= seq![b[0]] + b.drop_first());
    } else {
        assert(a =~= b);
    }
}

proof fn lemma_members(
    a: Seq<(Seq<char>, Seq<char>)>,
    b: Seq<(Seq<char>, Seq<char>)>,
    x: Seq<char>,
    y: Seq<char>,
)
    requires
        members(a) + x == members(b) + y,
        x.len() > 0 && x[0] == '}',
        y.len() > 0 && y[0] == '}',
    ensures
        a == b,
        x == y,
{
    let (s, t) = (members(a) + x, members(b) + y);
    if a.len() == 0 {
        assert(s =~= x);
    } else {
        assert(s[0] == '"');
    }
    if b.len() == 0 {
        assert(t =~= y);
    } else {
        assert(t[0] == '"');
    }
    if a.len() > 0 {
        let (u, v) = (more_members(a.drop_first()) + x, more_members(b.drop_first()) + y);
        assert(s =~= json::quoted(a[0].0) + (seq![':'] + (json::quoted(a[0].1) + u)));
        assert(t =~= json::quoted(b[0].0) + (seq![':'] + (json::quoted(b[0].1) + v)));
        lemma_member(a[0], b[0], u, v);
        lemma_more_members(a.drop_first(), b.drop_first(), x, y);
        assert(a =~= seq![a[0]] + a.drop_first());
        assert(b =~= seq![b[0]] + b.drop_first());
    } else {
        assert(a =~= b);
    }
}

/// Policies that differ in anything have different canonical JSON. So a change of the model,
/// the provider, an override, a parser or the parsers' order changes what is hashed.
pub proof fn canonical_json_is_injective(a: schema::PolicyView, b: schema::PolicyView)
    requires
        canonical(a) == canonical(b),
    ensures
        a == b,
{
    reveal_strlit("}},\"embedding\":{\"model\":");
    reveal_strlit("]}");
    let (a4, b4) = (items(a.parsers) + "]}"@, items(b.parsers) + "]}"@);
    let (a3, b3) = ("},\"parsers\":["@ + a4, "},\"parsers\":["@ + b4);
    let (p, q) = (json::quoted(a.provider) + a3, json::quoted(b.provider) + b3);
    let (a2, b2) = (",\"provider\":"@ + p, ",\"provider\":"@ + q);
    let (m, n) = (json::quoted(a.model) + a2, json::quoted(b.model) + b2);
    let (a1, b1) = ("}},\"embedding\":{\"model\":"@ + m, "}},\"embedding\":{\"model\":"@ + n);
    lemma_same_rest(
        "{\"chunking\":{\"preset_overrides\":{"@,
        members(a.overrides) + a1,
        members(b.overrides) + b1,
    );
    lemma_members(a.overrides, b.overrides, a1, b1);
    lemma_same_rest("}},\"embedding\":{\"model\":"@, m, n);
    json::quoted_is_injective(a.model, b.model, a2, b2);
    lemma_same_rest(",\"provider\":"@, p, q);
    json::quoted_is_injective(a.provider, b.provider, a3, b3);
    lemma_same_rest("},\"parsers\":["@, a4, b4);
    lemma_items(a.parsers, b.parsers, "]}"@, "]}"@);
}

} // verus!
