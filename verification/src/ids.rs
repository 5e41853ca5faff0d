//! Identity of the entities of the index.
//!
//! Stores, sources and jobs get a fresh ULID. Documents and chunks are addressed
//! by their content: two nodes that index the same content derive the same id.

use crate::text;
use vstd::prelude::*;
use vstd::utf8::*;

verus! {

/// A ULID in its canonical text form.
pub type UlidId = String;

/// A blake3 digest as a lower-case hex string.
pub type ContentId = String;

// ---------------------------------------------------------------------------
// The hash
// ---------------------------------------------------------------------------
/// The blake3 digest of the given bytes.
pub uninterp spec fn blake3_of(bytes: Seq<u8>) -> Seq<u8>;

/// Wraps `blake3::hash`: the digest depends on the bytes alone, and has 32 bytes.
#[verifier::external_body]
fn blake3_hash(bytes: &[u8]) -> (r: Vec<u8>)
    ensures
        r@ == blake3_of(bytes@),
        r@.len() == 32,
{
    blake3::hash(bytes).as_bytes().to_vec()
}

/// The lower-case hex digit of a value below 16.
pub open spec fn hex_digit(n: int) -> char {
    if n < 10 {
        (48 + n) as char
    } else {
        (87 + n) as char
    }
}

/// Two lower-case hex digits for each byte.
pub open spec fn hex_text(bytes: Seq<u8>) -> Seq<char> {
    Seq::new(
        2 * bytes.len(),
        |i: int|
            hex_digit(
                if i % 2 == 0 {
                    bytes[i / 2] as int / 16
                } else {
                    bytes[i / 2] as int % 16
                },
            ),
    )
}

/// Wraps `hex::encode`: two lower-case hex digits for each byte.
#[verifier::external_body]
fn hex_encode(bytes: &[u8]) -> (r: String)
    ensures
        r@ == hex_text(bytes@),
{
    hex::encode(bytes)
}

/// The blake3 digest of the given bytes, in lower-case hex.
pub open spec fn blake3_hex(bytes: Seq<u8>) -> Seq<char> {
    hex_text(blake3_of(bytes))
}

/// `0` to `9` and `a` to `f`.
pub open spec fn lower_hex(c: char) -> bool {
    ('0' <= c <= '9') || ('a' <= c <= 'f')
}

/// The blake3 digest of the given bytes, as 64 lower-case hex digits.
pub(crate) fn blake3_digest(bytes: &[u8]) -> (r: String)
    ensures
        r@ == blake3_hex(bytes@),
        r@.len() == 64,
        forall|i: int| 0 <= i < r@.len() ==> lower_hex(#[trigger] r@[i]),
{
    let digest = blake3_hash(bytes);
    let r = hex_encode(digest.as_slice());
    assert forall|i: int| 0 <= i < r@.len() implies lower_hex(#[trigger] r@[i]) by {
        let n = if i % 2 == 0 {
            digest@[i / 2] as int / 16
        } else {
            digest@[i / 2] as int % 16
        };
        assert(0 <= n < 16);
        assert(r@[i] == hex_digit(n));
    }
    r
}

/// Wraps `ulid::Ulid::new`, formatted: 26 characters. Which ones depends on the clock
/// and on chance.
#[verifier::external_body]
fn fresh_ulid() -> (r: String)
    ensures
        r@.len() == 26,
{
    ulid::Ulid::new().to_string()
}

/// A new ULID for an entity that exists by fiat.
pub fn new_ulid() -> (r: UlidId)
    ensures
        r@.len() == 26,
{
    fresh_ulid()
}

// ---------------------------------------------------------------------------
// Byte strings
// ---------------------------------------------------------------------------
/// The four bytes of `v`, least significant first.
pub open spec fn le_bytes(v: u32) -> Seq<u8> {
    seq![
        (v % 256) as u8,
        ((v / 256) % 256) as u8,
        ((v / 65536) % 256) as u8,
        ((v / 16777216) % 256) as u8,
    ]
}

/// The number whose four bytes these are.
pub open spec fn le_value(b: Seq<u8>) -> int {
    b[0] + 256 * b[1] + 65536 * b[2] + 16777216 * b[3]
}

/// The little-endian bytes determine the number.
pub proof fn lemma_le_bytes(v: u32)
    ensures
        le_bytes(v).len() == 4,
        le_value(le_bytes(v)) == v,
{
}

/// Appends the UTF-8 bytes of `s`.
fn push_str_bytes(out: &mut Vec<u8>, s: &str)
    ensures
        final(out)@ == old(out)@ + encode_utf8(s@),
{
    let b = s.as_bytes();
    let mut i: usize = 0;
    while i < b.len()
        invariant
            i <= b.len(),
            b@ == encode_utf8(s@),
            out@ == old(out)@ + b@.take(i as int),
        decreases b.len() - i,
    {
        out.push(b[i]);
        i += 1;
        assert(out@ =~= old(out)@ + b@.take(i as int));
    }
    assert(b@.take(b@.len() as int) =~= b@);
}

/// Appends the little-endian bytes of `v`.
fn push_le_bytes(out: &mut Vec<u8>, v: u32)
    ensures
        final(out)@ == old(out)@ + le_bytes(v),
{
    out.push((v % 256) as u8);
    out.push(((v / 256) % 256) as u8);
    out.push(((v / 65536) % 256) as u8);
    out.push(((v / 16777216) % 256) as u8);
    assert(out@ =~= old(out)@ + le_bytes(v));
}

// ---------------------------------------------------------------------------
// Content-addressed ids
// ---------------------------------------------------------------------------
/// Id of a document: the digest of its source URI followed by its content hash.
pub open spec fn resource_id_of(uri: Seq<char>, hash: Seq<char>) -> Seq<char> {
    blake3_hex(encode_utf8(uri) + encode_utf8(hash))
}

/// Hash of a text.
pub open spec fn content_hash_of(text: Seq<char>) -> Seq<char> {
    blake3_hex(encode_utf8(text))
}

/// The bytes that a chunk's id is the digest of.
pub open spec fn chunk_key(
    resource_id: Seq<char>,
    block_seq: u32,
    text: Seq<char>,
    seq_in_block: u32,
) -> Seq<u8> {
    encode_utf8(resource_id) + le_bytes(block_seq) + encode_utf8(text) + le_bytes(seq_in_block)
}

/// Id of a chunk: the digest of its document, its block, its text and its place in
/// the block. The span is no part of it.
pub open spec fn chunk_id_of(
    resource_id: Seq<char>,
    block_seq: u32,
    text: Seq<char>,
    seq_in_block: u32,
) -> Seq<char> {
    blake3_hex(chunk_key(resource_id, block_seq, text, seq_in_block))
}

/// Whether a text has the shape of a content id.
pub open spec fn is_content_id(s: Seq<char>) -> bool {
    s.len() == 64 && forall|i: int| 0 <= i < s.len() ==> lower_hex(#[trigger] s[i])
}

/// Derives a document's id from its canonical URI and its content hash.
pub fn resource_id(canonical_source_uri: &str, content_hash: &str) -> (r: ContentId)
    ensures
        r@ == resource_id_of(canonical_source_uri@, content_hash@),
        is_content_id(r@),
{
    let mut bytes: Vec<u8> = Vec::new();
    push_str_bytes(&mut bytes, canonical_source_uri);
    push_str_bytes(&mut bytes, content_hash);
    assert(bytes@ =~= encode_utf8(canonical_source_uri@) + encode_utf8(content_hash@));
    blake3_digest(bytes.as_slice())
}

/// Hash of normalized extracted text; it drives incremental re-indexing.
pub fn content_hash(text: &str) -> (r: String)
    ensures
        r@ == content_hash_of(text@),
        is_content_id(r@),
{
    blake3_digest(text.as_bytes())
}

/// Derives a chunk's id. Both sequence numbers must be final.
pub fn chunk_id(resource_id: &str, block_seq: u32, chunk_text: &str, seq_in_block: u32) -> (r:
    ContentId)
    ensures
        r@ == chunk_id_of(resource_id@, block_seq, chunk_text@, seq_in_block),
        is_content_id(r@),
{
    let mut bytes: Vec<u8> = Vec::new();
    push_str_bytes(&mut bytes, resource_id);
    push_le_bytes(&mut bytes, block_seq);
    push_str_bytes(&mut bytes, chunk_text);
    push_le_bytes(&mut bytes, seq_in_block);
    assert(bytes@ =~= chunk_key(resource_id@, block_seq, chunk_text@, seq_in_block));
    blake3_digest(bytes.as_slice())
}

/// Chunks of one document that differ in their block, their text or their place in the
/// block are keyed by different bytes.
pub proof fn chunk_key_is_injective(
    resource_id: Seq<char>,
    block_a: u32,
    text_a: Seq<char>,
    seq_a: u32,
    block_b: u32,
    text_b: Seq<char>,
    seq_b: u32,
)
    requires
        chunk_key(resource_id, block_a, text_a, seq_a) == chunk_key(
            resource_id,
            block_b,
            text_b,
            seq_b,
        ),
    ensures
        block_a == block_b,
        text_a == text_b,
        seq_a == seq_b,
{
    let r = encode_utf8(resource_id);
    let ta = encode_utf8(text_a);
    let tb = encode_utf8(text_b);
    let ka = chunk_key(resource_id, block_a, text_a, seq_a);
    let kb = chunk_key(resource_id, block_b, text_b, seq_b);
    let n = r.len() as int;
    assert(ka.len() == n + 8 + ta.len());
    assert(kb.len() == n + 8 + tb.len());
    assert(ka.subrange(n, n + 4) =~= le_bytes(block_a));
    assert(kb.subrange(n, n + 4) =~= le_bytes(block_b));
    lemma_le_bytes(block_a);
    lemma_le_bytes(block_b);
    assert(ka.subrange(n + 4, ka.len() - 4) =~= ta);
    assert(kb.subrange(n + 4, kb.len() - 4) =~= tb);
    text::lemma_encode_injective(text_a, text_b);
    assert(ka.subrange(ka.len() - 4, ka.len() as int) =~= le_bytes(seq_a));
    assert(kb.subrange(kb.len() - 4, kb.len() as int) =~= le_bytes(seq_b));
    lemma_le_bytes(seq_a);
    lemma_le_bytes(seq_b);
}

// ---------------------------------------------------------------------------
// Field encodings
// ---------------------------------------------------------------------------
/// An optional field as hash input: present ones carry a mark in front.
pub open spec fn encoded_field(value: Option<Seq<char>>) -> Seq<char> {
    match value {
        Some(v) => seq!['\x01'] + v,
        None => Seq::empty(),
    }
}

/// Encodes an optional hash-input field, so that an absent value and an empty one differ.
pub fn encode_optional_field(value: Option<&str>) -> (r: String)
    ensures
        r@ == encoded_field(text::opt_str_view(value)),
{
    match value {
        Some(v) => {
            let mut s = String::new();
            s.push('\x01');
            s.append(v);
            assert(s@ =~= seq!['\x01'] + v@);
            s
        },
        None => String::new(),
    }
}

/// Different optional values have different encodings; in particular an absent value
/// and an empty one do.
pub proof fn encoded_field_is_injective(a: Option<Seq<char>>, b: Option<Seq<char>>)
    requires
        encoded_field(a) == encoded_field(b),
    ensures
        a == b,
{
    match (a, b) {
        (Some(x), Some(y)) => {
            assert(encoded_field(a).drop_first() =~= x);
            assert(encoded_field(b).drop_first() =~= y);
        },
        (Some(x), None) => {
            assert(encoded_field(a).len() == 1 + x.len());
        },
        (None, Some(y)) => {
            assert(encoded_field(b).len() == 1 + y.len());
        },
        (None, None) => {},
    }
}

/// The text that a resource's metadata hash is taken of: the serialized metadata and
/// three optional fields, with a NUL between each two of them.
pub open spec fn metadata_hash_input(
    metadata_json: Seq<char>,
    external_id: Option<Seq<char>>,
    external_etag: Option<Seq<char>>,
    modified_at: Option<Seq<char>>,
) -> Seq<char> {
    metadata_json + seq!['\x00'] + encoded_field(external_id) + seq!['\x00'] + encoded_field(
        external_etag,
    ) + seq!['\x00'] + encoded_field(modified_at)
}

/// Hash over a resource's persisted metadata state. `metadata_json` is the metadata
/// exactly as it is persisted, serialized.
pub fn compute_metadata_hash(
    metadata_json: &str,
    external_id: Option<&str>,
    external_etag: Option<&str>,
    modified_at: Option<&str>,
) -> (r: String)
    ensures
        r@ == content_hash_of(
            metadata_hash_input(
                metadata_json@,
                text::opt_str_view(external_id),
                text::opt_str_view(external_etag),
                text::opt_str_view(modified_at),
            ),
        ),
        is_content_id(r@),
{
    let mut s = String::from_str(metadata_json);
    s.push('\x00');
    s.append(encode_optional_field(external_id).as_str());
    s.push('\x00');
    s.append(encode_optional_field(external_etag).as_str());
    s.push('\x00');
    s.append(encode_optional_field(modified_at).as_str());
    assert(s@ =~= metadata_hash_input(
        metadata_json@,
        text::opt_str_view(external_id),
        text::opt_str_view(external_etag),
        text::opt_str_view(modified_at),
    ));
    content_hash(s.as_str())
}

/// Whether a text holds no NUL character.
pub open spec fn nul_free(s: Seq<char>) -> bool {
    !s.contains('\x00')
}

pub open spec fn opt_nul_free(s: Option<Seq<char>>) -> bool {
    s matches Some(v) ==> nul_free(v)
}

/// At the first NUL of both texts, equal concatenations come apart equally.
proof fn lemma_split_at_nul(a: Seq<char>, x: Seq<char>, b: Seq<char>, y: Seq<char>)
    requires
        nul_free(a),
        nul_free(b),
        a + seq!['\x00'] + x == b + seq!['\x00'] + y,
    ensures
        a == b,
        x == y,
{
    let s = a + seq!['\x00'] + x;
    let t = b + seq!['\x00'] + y;
    if a.len() < b.len() {
        assert(s[a.len() as int] == '\x00');
        assert(t[a.len() as int] == b[a.len() as int]);
        assert(b.contains('\x00'));
    } else if b.len() < a.len() {
        assert(t[b.len() as int] == '\x00');
        assert(s[b.len() as int] == a[b.len() as int]);
        assert(a.contains('\x00'));
    }
    assert(s.take(a.len() as int) =~= a);
    assert(t.take(b.len() as int) =~= b);
    assert(s.skip(a.len() as int + 1) =~= x);
    assert(t.skip(b.len() as int + 1) =~= y);
}

/// At the last NUL of both texts, equal concatenations come apart equally.
proof fn lemma_split_at_last_nul(a: Seq<char>, x: Seq<char>, b: Seq<char>, y: Seq<char>)
    requires
        nul_free(x),
        nul_free(y),
        a + seq!['\x00'] + x == b + seq!['\x00'] + y,
    ensures
        a == b,
        x == y,
{
    let s = a + seq!['\x00'] + x;
    let t = b + seq!['\x00'] + y;
    assert(s.len() == a.len() + 1 + x.len() && t.len() == b.len() + 1 + y.len());
    assert(s == t);
    if a.len() < b.len() {
        assert(t[b.len() as int] == '\x00');
        assert(s[b.len() as int] == x[b.len() - a.len() - 1]);
        assert(x.contains('\x00'));
    } else if b.len() < a.len() {
        assert(s[a.len() as int] == '\x00');
        assert(t[a.len() as int] == y[a.len() - b.len() - 1]);
        assert(y.contains('\x00'));
    }
    assert(s.take(a.len() as int) =~= a);
    assert(t.take(b.len() as int) =~= b);
    assert(s.skip(a.len() as int + 1) =~= x);
    assert(t.skip(b.len() as int + 1) =~= y);
}

proof fn lemma_encoded_nul_free(v: Option<Seq<char>>)
    requires
        opt_nul_free(v),
    ensures
        nul_free(encoded_field(v)),
{
    if let Some(s) = v {
        let e = encoded_field(v);
        assert forall|i: int| 0 <= i < e.len() implies e[i] != '\x00' by {
            if i > 0 {
                assert(e[i] == s[i - 1]);
            }
        }
    }
}

proof fn lemma_four_fields(a: Seq<char>, b: Seq<char>, c: Seq<char>, d: Seq<char>)
    ensures
        ({
            let z = seq!['\x00'];
            a + z + b + z + c + z + d == a + z + (b + z + (c + z + d))
        }),
{
    let z = seq!['\x00'];
    assert(a + z + b + z + c + z + d =~= a + z + (b + z + (c + z + d)));
}

/// Four fields with a NUL between each two of them come apart at the first three NULs.
proof fn lemma_split_from_left(
    a: Seq<char>,
    b: Seq<char>,
    c: Seq<char>,
    d: Seq<char>,
    e: Seq<char>,
    f: Seq<char>,
    g: Seq<char>,
    h: Seq<char>,
)
    requires
        nul_free(a) && nul_free(b) && nul_free(c),
        nul_free(e) && nul_free(f) && nul_free(g),
        ({
            let z = seq!['\x00'];
            a + z + b + z + c + z + d == e + z + f + z + g + z + h
        }),
    ensures
        a == e && b == f && c == g && d == h,
{
    let z = seq!['\x00'];
    lemma_four_fields(a, b, c, d);
    lemma_four_fields(e, f, g, h);
    lemma_split_at_nul(a, b + z + (c + z + d), e, f + z + (g + z + h));
    lemma_split_at_nul(b, c + z + d, f, g + z + h);
    lemma_split_at_nul(c, d, g, h);
}

/// Four fields with a NUL between each two of them come apart at the last three NULs.
proof fn lemma_split_from_right(
    a: Seq<char>,
    b: Seq<char>,
    c: Seq<char>,
    d: Seq<char>,
    e: Seq<char>,
    f: Seq<char>,
    g: Seq<char>,
    h: Seq<char>,
)
    requires
        nul_free(b) && nul_free(c) && nul_free(d),
        nul_free(f) && nul_free(g) && nul_free(h),
        ({
            let z = seq!['\x00'];
            a + z + b + z + c + z + d == e + z + f + z + g + z + h
        }),
    ensures
        a == e && b == f && c == g && d == h,
{
    let z = seq!['\x00'];
    lemma_split_at_last_nul(a + z + b + z + c, d, e + z + f + z + g, h);
    lemma_split_at_last_nul(a + z + b, c, e + z + f, g);
    lemma_split_at_last_nul(a, b, e, f);
}

/// A field boundary that moves cannot make two metadata states collide: states have equal hash
/// inputs only where every field is equal. The metadata, the id and the etag, or else the three
/// optional fields, must hold no NUL characters.
pub proof fn metadata_hash_input_is_injective(
    json_a: Seq<char>,
    id_a: Option<Seq<char>>,
    etag_a: Option<Seq<char>>,
    at_a: Option<Seq<char>>,
    json_b: Seq<char>,
    id_b: Option<Seq<char>>,
    etag_b: Option<Seq<char>>,
    at_b: Option<Seq<char>>,
)
    requires
        opt_nul_free(id_a) && opt_nul_free(etag_a),
        opt_nul_free(id_b) && opt_nul_free(etag_b),
        (nul_free(json_a) && nul_free(json_b)) || (opt_nul_free(at_a) && opt_nul_free(at_b)),
        metadata_hash_input(json_a, id_a, etag_a, at_a) == metadata_hash_input(
            json_b,
            id_b,
            etag_b,
            at_b,
        ),
    ensures
        json_a == json_b,
        id_a == id_b,
        etag_a == etag_b,
        at_a == at_b,
{
    let (ia, ea, ta) = (encoded_field(id_a), encoded_field(etag_a), encoded_field(at_a));
    let (ib, eb, tb) = (encoded_field(id_b), encoded_field(etag_b), encoded_field(at_b));
    lemma_encoded_nul_free(id_a);
    lemma_encoded_nul_free(etag_a);
    lemma_encoded_nul_free(id_b);
    lemma_encoded_nul_free(etag_b);
    if nul_free(json_a) && nul_free(json_b) {
        lemma_split_from_left(json_a, ia, ea, ta, json_b, ib, eb, tb);
    } else {
        lemma_encoded_nul_free(at_a);
        lemma_encoded_nul_free(at_b);
        lemma_split_from_right(json_a, ia, ea, ta, json_b, ib, eb, tb);
    }
    encoded_field_is_injective(id_a, id_b);
    encoded_field_is_injective(etag_a, etag_b);
    encoded_field_is_injective(at_a, at_b);
}

/// `true` or `false`.
pub open spec fn bool_text(b: bool) -> Seq<char> {
    if b {
        "true"@
    } else {
        "false"@
    }
}

/// The text that the digest of a feed's local inputs is taken of.
pub open spec fn feed_inputs_text(
    policy_version: Seq<char>,
    fetch_full_content: bool,
    max_entries: Option<u32>,
) -> Seq<char> {
    policy_version + seq!['\x00'] + bool_text(fetch_full_content) + seq!['\x00'] + encoded_field(
        match max_entries {
            Some(n) => Some(text::decimal(n as nat)),
            None => None,
        },
    )
}

/// Digest of the local inputs that decide what a feed run makes of an unchanged feed:
/// the policy version, whether entry links are followed, and how many entries are taken.
pub fn compute_feed_inputs_digest(
    policy_version: &str,
    fetch_full_content: bool,
    max_entries: Option<u32>,
) -> (r: String)
    ensures
        r@ == content_hash_of(feed_inputs_text(policy_version@, fetch_full_content, max_entries)),
        is_content_id(r@),
{
    let mut s = String::from_str(policy_version);
    s.push('\x00');
    if fetch_full_content {
        s.append("true");
    } else {
        s.append("false");
    }
    s.push('\x00');
    match max_entries {
        Some(n) => {
            let d = text::decimal_string(n as u64);
            s.append(encode_optional_field(Some(d.as_str())).as_str());
        },
        None => {
            s.append(encode_optional_field(None).as_str());
        },
    }
    assert(s@ =~= feed_inputs_text(policy_version@, fetch_full_content, max_entries));
    content_hash(s.as_str())
}

proof fn lemma_digits_nul_free(s: Seq<char>)
    requires
        text::all_digits(s),
    ensures
        nul_free(s),
{
    assert forall|i: int| 0 <= i < s.len() implies s[i] != '\x00' by {
        assert(text::ascii_digit(s[i]));
    }
}

/// Different local inputs give different digest inputs: an unbounded entry limit collides
/// with no bounded one.
pub proof fn feed_inputs_text_is_injective(
    policy_a: Seq<char>,
    full_a: bool,
    max_a: Option<u32>,
    policy_b: Seq<char>,
    full_b: bool,
    max_b: Option<u32>,
)
    requires
        feed_inputs_text(policy_a, full_a, max_a) == feed_inputs_text(policy_b, full_b, max_b),
    ensures
        policy_a == policy_b,
        full_a == full_b,
        max_a == max_b,
{
    let z = seq!['\x00'];
    let na = match max_a {
        Some(n) => Some(text::decimal(n as nat)),
        None => None,
    };
    let nb = match max_b {
        Some(n) => Some(text::decimal(n as nat)),
        None => None,
    };
    reveal_strlit("true");
    reveal_strlit("false");
    if let Some(n) = max_a {
        text::lemma_decimal_value(n as nat);
        lemma_digits_nul_free(text::decimal(n as nat));
    }
    if let Some(n) = max_b {
        text::lemma_decimal_value(n as nat);
        lemma_digits_nul_free(text::decimal(n as nat));
    }
    lemma_encoded_nul_free(na);
    lemma_encoded_nul_free(nb);
    lemma_split_at_last_nul(
        policy_a + z + bool_text(full_a),
        encoded_field(na),
        policy_b + z + bool_text(full_b),
        encoded_field(nb),
    );
    lemma_split_at_last_nul(policy_a, bool_text(full_a), policy_b, bool_text(full_b));
    encoded_field_is_injective(na, nb);
    if let (Some(x), Some(y)) = (max_a, max_b) {
        text::lemma_decimal_value(x as nat);
        text::lemma_decimal_value(y as nat);
    }
}

} // verus!
