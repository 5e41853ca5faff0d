//! Bearer secrets, PKCE and expiry.
//!
//! A secret is made of 32 random bytes and is shown once; only its digest is kept.

use crate::calendar;
use crate::ids;
use crate::text;
use rand::rngs::OsRng;
use rand::RngCore;
use sha2::{Digest, Sha256};
use vstd::arithmetic::div_mod::*;
use std::time::{SystemTime, UNIX_EPOCH};
use vstd::prelude::*;
use vstd::utf8::*;

verus! {

/// What every minted secret begins with.
pub const TOKEN_PREFIX: &'static str = "ldb_";

/// Lifetime of an access token: one hour.
pub const ACCESS_TOKEN_TTL_SECS: i64 = 3600;

/// Lifetime of a refresh token: 30 days.
pub const REFRESH_TOKEN_TTL_SECS: i64 = 2592000;

/// Lifetime of an authorization code: ten minutes.
pub const AUTH_CODE_TTL_SECS: i64 = 600;

/// A new secret and its digest, the only form that is kept.
#[derive(Debug, Clone, PartialEq, Eq)]
pub struct MintedSecret {
    pub secret: String,
    pub hash: String,
}

// ---------------------------------------------------------------------------
// Outside sources
// ---------------------------------------------------------------------------
/// Wraps `rand::rngs::OsRng` (`fill_bytes`): 32 bytes from the operating system. Which
/// ones is chance.
#[verifier::external_body]
fn random_bytes() -> (r: Vec<u8>)
    ensures
        r@.len() == 32,
{
    let mut bytes = [0u8; 32];
    OsRng.fill_bytes(&mut bytes);
    bytes.to_vec()
}

/// The SHA-256 digest of the given bytes.
pub uninterp spec fn sha256(bytes: Seq<u8>) -> Seq<u8>;

/// Wraps `sha2::Sha256::digest`: 32 bytes that depend on the input alone.
#[verifier::external_body]
fn sha256_digest(bytes: &[u8]) -> (r: Vec<u8>)
    ensures
        r@ == sha256(bytes@),
        r@.len() == 32,
{
    Sha256::digest(bytes).to_vec()
}

/// Wraps `std::time::SystemTime::duration_since` the start of 1970, in whole seconds. It
/// depends on the clock. `None` where the clock is before 1970.
#[verifier::external_body]
fn clock_secs() -> (r: Option<u64>) {
    SystemTime::now().duration_since(UNIX_EPOCH).ok().map(|elapsed| elapsed.as_secs())
}

// ---------------------------------------------------------------------------
// Base64url
// ---------------------------------------------------------------------------
/// The character of a six-bit value in the URL-safe alphabet.
pub open spec fn b64_char(v: int) -> char {
    if v < 26 {
        (65 + v) as char
    } else if v < 52 {
        (71 + v) as char
    } else if v < 62 {
        (v - 4) as char
    } else if v == 62 {
        '-'
    } else {
        '_'
    }
}

/// The byte at `i`, or 0 past the end.
pub open spec fn byte_or_zero(b: Seq<u8>, i: int) -> int {
    if i < b.len() {
        b[i] as int
    } else {
        0
    }
}

/// The three bytes from `3 * g` on, as one number of 24 bits.
pub open spec fn b64_group(b: Seq<u8>, g: int) -> int {
    65536 * byte_or_zero(b, 3 * g) + 256 * byte_or_zero(b, 3 * g + 1) + byte_or_zero(b, 3 * g + 2)
}

/// The `k`-th six bits of the bytes.
pub open spec fn sextet(b: Seq<u8>, k: int) -> int {
    let n = b64_group(b, k / 4);
    if k % 4 == 0 {
        n / 262144
    } else if k % 4 == 1 {
        (n / 4096) % 64
    } else if k % 4 == 2 {
        (n / 64) % 64
    } else {
        n % 64
    }
}

/// How many characters `n` bytes take: the bits, six at a time.
pub open spec fn b64_len(n: int) -> int {
    (8 * n + 5) / 6
}

/// Base64url without padding.
pub open spec fn b64(b: Seq<u8>) -> Seq<char> {
    Seq::new(b64_len(b.len() as int) as nat, |k: int| b64_char(sextet(b, k)))
}

fn b64_digit(v: u32) -> (c: char)
    requires
        v < 64,
    ensures
        c == b64_char(v as int),
{
    if v < 26 {
        (65 + v as u8) as char
    } else if v < 52 {
        (71 + v as u8) as char
    } else if v < 62 {
        (v as u8 - 4) as char
    } else if v == 62 {
        '-'
    } else {
        '_'
    }
}

/// Base64url encoding without padding (RFC 4648, section 5).
pub fn base64url_encode(bytes: &[u8]) -> (r: String)
    ensures
        r@ == b64(bytes@),
{
    let mut out = String::new();
    let mut i: usize = 0;
    let ghost mut g: int = 0;
    assert(out@ =~= b64(bytes@).take(0));
    while i < bytes.len()
        invariant
            i <= bytes.len(),
            g >= 0,
            i == 3 * g || i == bytes.len(),
            i == 3 * g ==> out@ == b64(bytes@).take(4 * g) && 4 * g <= b64(bytes@).len(),
            i == bytes.len() ==> out@ == b64(bytes@),
        decreases bytes.len() - i,
    {
        let b0: u32 = bytes[i] as u32;
        let b1: u32 = if bytes.len() - i > 1 {
            bytes[i + 1] as u32
        } else {
            0
        };
        let b2: u32 = if bytes.len() - i > 2 {
            bytes[i + 2] as u32
        } else {
            0
        };
        let n: u32 = b0 * 65536 + b1 * 256 + b2;
        let ghost before = out@;
        let ghost full = b64(bytes@);
        assert(n == b64_group(bytes@, g));
        assert((4 * g) / 4 == g && (4 * g + 1) / 4 == g && (4 * g + 2) / 4 == g && (4 * g + 3) / 4
            == g);
        assert(full.len() == b64_len(bytes@.len() as int));
        out.push(b64_digit(n / 262144));
        out.push(b64_digit((n / 4096) % 64));
        assert(out@ =~= full.take(4 * g + 2));
        if bytes.len() - i > 1 {
            out.push(b64_digit((n / 64) % 64));
            assert(out@ =~= full.take(4 * g + 3));
        }
        if bytes.len() - i > 2 {
            out.push(b64_digit(n % 64));
            assert(out@ =~= full.take(4 * g + 4));
        }
        if bytes.len() - i > 3 {
            i += 3;
        } else {
            assert(full.take(full.len() as int) =~= full);
            i = bytes.len();
        }
        proof {
            g = g + 1;
        }
    }
    out
}

/// Different bytes of one length have different encodings.
pub proof fn base64url_is_injective(a: Seq<u8>, b: Seq<u8>)
    requires
        a.len() == b.len(),
        b64(a) == b64(b),
    ensures
        a == b,
{
    assert forall|k: int| 0 <= k < b64(a).len() implies sextet(a, k) == sextet(b, k) by {
        assert(b64(a)[k] == b64_char(sextet(a, k)));
        assert(b64(b)[k] == b64_char(sextet(b, k)));
        assert(b64_char(sextet(a, k)) as u32 == b64_char(sextet(b, k)) as u32);
        lemma_sextet_range(a, k);
        lemma_sextet_range(b, k);
        lemma_b64_char(sextet(a, k));
        lemma_b64_char(sextet(b, k));
    }
    assert forall|i: int| 0 <= i < a.len() implies a[i] == b[i] by {
        lemma_byte_from_sextets(a, i);
        lemma_byte_from_sextets(b, i);
        let g = i / 3;
        if i % 3 == 0 {
            assert(sextet(a, 4 * g) == sextet(b, 4 * g));
            assert(sextet(a, 4 * g + 1) == sextet(b, 4 * g + 1));
        } else if i % 3 == 1 {
            assert(sextet(a, 4 * g + 1) == sextet(b, 4 * g + 1));
            assert(sextet(a, 4 * g + 2) == sextet(b, 4 * g + 2));
        } else {
            assert(sextet(a, 4 * g + 2) == sextet(b, 4 * g + 2));
            assert(sextet(a, 4 * g + 3) == sextet(b, 4 * g + 3));
        }
    }
    assert(a =~= b);
}

proof fn lemma_sextet_range(b: Seq<u8>, k: int)
    requires
        0 <= k,
    ensures
        0 <= sextet(b, k) < 64,
{
    assert(0 <= b64_group(b, k / 4) < 16777216);
}

/// Each byte is made of parts of two neighbouring sextets.
proof fn lemma_byte_from_sextets(b: Seq<u8>, i: int)
    requires
        0 <= i < b.len(),
    ensures
        i % 3 == 0 ==> b[i] == sextet(b, 4 * (i / 3)) * 4 + sextet(b, 4 * (i / 3) + 1) / 16,
        i % 3 == 1 ==> b[i] == (sextet(b, 4 * (i / 3) + 1) % 16) * 16 + sextet(b, 4 * (i / 3) + 2)
            / 4,
        i % 3 == 2 ==> b[i] == (sextet(b, 4 * (i / 3) + 2) % 4) * 64 + sextet(b, 4 * (i / 3) + 3),
        i % 3 == 0 ==> 4 * (i / 3) + 1 < b64_len(b.len() as int),
        i % 3 == 1 ==> 4 * (i / 3) + 2 < b64_len(b.len() as int),
        i % 3 == 2 ==> 4 * (i / 3) + 3 < b64_len(b.len() as int),
{
    let g = i / 3;
    assert(i == 3 * g + i % 3);
    assert((4 * g) / 4 == g && (4 * g + 1) / 4 == g && (4 * g + 2) / 4 == g && (4 * g + 3) / 4
        == g);
    let (x, y, z) = (byte_or_zero(b, 3 * g), byte_or_zero(b, 3 * g + 1), byte_or_zero(b, 3 * g + 2));
    let n = 65536 * x + 256 * y + z;
    assert(n == b64_group(b, g));
    assert(0 <= x < 256 && 0 <= y < 256 && 0 <= z < 256);
    lemma_sextets_of(x, y, z);
}

/// The four groups of six bits of three bytes.
proof fn lemma_sextets_of(x: int, y: int, z: int)
    requires
        0 <= x < 256,
        0 <= y < 256,
        0 <= z < 256,
    ensures
        ({
            let n = 65536 * x + 256 * y + z;
            &&& n / 262144 == x / 4
            &&& (n / 4096) % 64 == (x % 4) * 16 + y / 16
            &&& (n / 64) % 64 == (y % 16) * 4 + z / 64
            &&& n % 64 == z % 64
        }),
{
    let n = 65536 * x + 256 * y + z;
    let (x1, x0, y1, y0, z1, z0) = (x / 4, x % 4, y / 16, y % 16, z / 64, z % 64);
    assert(x == 4 * x1 + x0 && y == 16 * y1 + y0 && z == 64 * z1 + z0);
    lemma_fundamental_div_mod_converse(
        n,
        262144,
        x1,
        65536 * x0 + 4096 * y1 + 256 * y0 + 64 * z1 + z0,
    );
    lemma_fundamental_div_mod_converse(n, 4096, 64 * x1 + 16 * x0 + y1, 256 * y0 + 64 * z1 + z0);
    lemma_fundamental_div_mod_converse(64 * x1 + 16 * x0 + y1, 64, x1, 16 * x0 + y1);
    lemma_fundamental_div_mod_converse(
        n,
        64,
        4096 * x1 + 1024 * x0 + 64 * y1 + 4 * y0 + z1,
        z0,
    );
    lemma_fundamental_div_mod_converse(
        4096 * x1 + 1024 * x0 + 64 * y1 + 4 * y0 + z1,
        64,
        64 * x1 + 16 * x0 + y1,
        4 * y0 + z1,
    );
}

/// The code point of each character of the alphabet.
proof fn lemma_b64_char(v: int)
    requires
        0 <= v < 64,
    ensures
        b64_char(v) as u32 == (if v < 26 {
            65 + v
        } else if v < 52 {
            71 + v
        } else if v < 62 {
            v - 4
        } else if v == 62 {
            45
        } else {
            95
        }),
{
}

// ---------------------------------------------------------------------------
// Secrets
// ---------------------------------------------------------------------------
/// The secret made of the given bytes.
pub open spec fn secret_of(bytes: Seq<u8>) -> Seq<char> {
    "ldb_"@ + b64(bytes)
}

/// The digest of a secret.
pub open spec fn secret_hash(secret: Seq<char>) -> Seq<char> {
    ids::content_hash_of(secret)
}

/// Whether the secret and the digest belong together, and the secret is one of 32 bytes.
pub open spec fn is_minted(secret: Seq<char>, hash: Seq<char>) -> bool {
    hash == secret_hash(secret) && exists|bytes: Seq<u8>|
        bytes.len() == 32 && secret == #[trigger] secret_of(bytes)
}

/// The secret of the given bytes, with its digest.
pub fn secret_from_bytes(bytes: &[u8]) -> (r: MintedSecret)
    ensures
        r.secret@ == secret_of(bytes@),
        r.hash@ == secret_hash(r.secret@),
{
    let body = base64url_encode(bytes);
    let secret = text::concat(TOKEN_PREFIX, body.as_str());
    let hash = hash_secret(secret.as_str());
    MintedSecret { secret, hash }
}

/// A new bearer secret: 32 random bytes in base64url behind the prefix, with its digest.
pub fn mint_secret() -> (r: MintedSecret)
    ensures
        is_minted(r.secret@, r.hash@),
        text::starts_with(r.secret@, "ldb_"@),
        r.secret@.len() == 47,
{
    let bytes = random_bytes();
    let r = secret_from_bytes(bytes.as_slice());
    proof {
        reveal_strlit("ldb_");
        assert(r.secret@ == secret_of(bytes@));
        assert(r.secret@.take(4) =~= "ldb_"@);
    }
    r
}

/// The digest of a secret, the only form that is kept.
pub fn hash_secret(secret: &str) -> (r: String)
    ensures
        r@ == secret_hash(secret@),
        ids::is_content_id(r@),
{
    ids::blake3_digest(secret.as_bytes())
}

/// Whether the secret is the one with that digest.
pub fn verify_secret(secret: &str, hash: &str) -> (r: bool)
    ensures
        r == (secret_hash(secret@) == hash@),
{
    let h = hash_secret(secret);
    text::str_eq(h.as_str(), hash)
}

// ---------------------------------------------------------------------------
// PKCE
// ---------------------------------------------------------------------------
/// The S256 challenge of a verifier: base64url of its SHA-256 digest.
pub open spec fn pkce_challenge(verifier: Seq<char>) -> Seq<char> {
    b64(sha256(encode_utf8(verifier)))
}

/// The S256 challenge of a verifier.
pub fn challenge_of(verifier: &str) -> (r: String)
    ensures
        r@ == pkce_challenge(verifier@),
{
    let digest = sha256_digest(verifier.as_bytes());
    base64url_encode(digest.as_slice())
}

/// Whether the verifier is the one that the S256 challenge was made of.
pub fn verify_pkce_s256(verifier: &str, challenge: &str) -> (r: bool)
    ensures
        r == (pkce_challenge(verifier@) == challenge@),
{
    let c = challenge_of(verifier);
    text::str_eq(c.as_str(), challenge)
}

/// A new PKCE pair: a verifier of 43 characters, and the challenge that
/// [`verify_pkce_s256`] accepts it for.
pub fn generate_pkce_pair() -> (r: (String, String))
    ensures
        r.0@.len() == 43,
        exists|bytes: Seq<u8>| bytes.len() == 32 && r.0@ == #[trigger] b64(bytes),
        r.1@ == pkce_challenge(r.0@),
{
    let bytes = random_bytes();
    let verifier = base64url_encode(bytes.as_slice());
    assert(verifier@ == b64(bytes@));
    let challenge = challenge_of(verifier.as_str());
    (verifier, challenge)
}

// ---------------------------------------------------------------------------
// Expiry
// ---------------------------------------------------------------------------
/// A clock's reading as seconds since 1970: 0 for a clock before 1970. More seconds than a
/// signed number holds wrap around.
pub open spec fn reading_secs(elapsed: Option<u64>) -> i64 {
    match elapsed {
        Some(s) => if s <= i64::MAX {
            s as i64
        } else {
            (s - 0x1_0000_0000_0000_0000) as i64
        },
        None => 0,
    }
}

/// A clock's reading as seconds since 1970.
pub fn secs_from_reading(elapsed: Option<u64>) -> (r: i64)
    ensures
        r == reading_secs(elapsed),
{
    match elapsed {
        Some(s) => if s <= i64::MAX as u64 {
            s as i64
        } else {
            -((u64::MAX - s) as i64) - 1
        },
        None => 0,
    }
}

/// Seconds since 1970.
pub fn now_unix() -> (r: i64)
    ensures
        exists|elapsed: Option<u64>| r == #[trigger] reading_secs(elapsed),
{
    secs_from_reading(clock_secs())
}

/// The sum, or the nearest bound.
pub open spec fn clamped_sum(a: i64, b: i64) -> i64 {
    if a + b > i64::MAX {
        i64::MAX
    } else if a + b < i64::MIN {
        i64::MIN
    } else {
        (a + b) as i64
    }
}

/// The instant `delta_secs` after `now`, both in seconds since 1970.
pub fn rfc3339_after(now: i64, delta_secs: i64) -> (r: String)
    ensures
        r@ == calendar::unix_text(clamped_sum(now, delta_secs) as int),
{
    let t: i64 = match now.checked_add(delta_secs) {
        Some(t) => t,
        None => if delta_secs > 0 {
            i64::MAX
        } else {
            i64::MIN
        },
    };
    calendar::format_unix(t)
}

/// The instant `delta_secs` from now; a negative number is in the past.
pub fn rfc3339_from_now(delta_secs: i64) -> (r: String)
    ensures
        exists|now: i64|
            r@ == calendar::unix_text(#[trigger] clamped_sum(now, delta_secs) as int),
{
    let now: i64 = now_unix();
    let r = rfc3339_after(now, delta_secs);
    assert(r@ == calendar::unix_text(clamped_sum(now, delta_secs) as int));
    r
}

/// Whether an instant is before `now`; both are texts of the same fixed-width form, which
/// sort as the instants do.
pub fn is_expired_at(expires_at: &str, now: &str) -> (r: bool)
    ensures
        r == text::text_lt(expires_at@, now@),
{
    text::str_lt(expires_at, now)
}

/// Whether an instant is in the past.
pub fn is_expired(expires_at: &str) -> (r: bool)
    ensures
        exists|now: i64|
            r == text::text_lt(
                expires_at@,
                calendar::unix_text(#[trigger] clamped_sum(now, 0) as int),
            ),
{
    let now = rfc3339_from_now(0);
    is_expired_at(expires_at, now.as_str())
}

/// A token that expires a positive time after it was made has not expired when it is made,
/// and has expired once that time has passed.
pub proof fn expiry_follows_the_clock(made: i64, ttl: i64, later: i64)
    requires
        0 <= made,
        0 < ttl,
        made + ttl < later < 253402300800,
    ensures
        !text::text_lt(
            calendar::unix_text(clamped_sum(made, ttl) as int),
            calendar::unix_text(made as int),
        ),
        text::text_lt(
            calendar::unix_text(clamped_sum(made, ttl) as int),
            calendar::unix_text(later as int),
        ),
{
    calendar::unix_texts_are_in_order(made as int, made + ttl);
    calendar::unix_texts_are_in_order(made + ttl, later as int);
    lemma_lt_asymmetric(calendar::unix_text(made as int), calendar::unix_text(made + ttl));
}

proof fn lemma_lt_asymmetric(a: Seq<char>, b: Seq<char>)
    requires
        text::text_lt(a, b),
    ensures
        !text::text_lt(b, a),
    decreases a.len(),
{
    if a.len() > 0 && a[0] == b[0] {
        lemma_lt_asymmetric(a.drop_first(), b.drop_first());
    }
}

} // verus!
