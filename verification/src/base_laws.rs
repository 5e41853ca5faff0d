//! What is promised of texts, of names in paths, of ids and of errors.

use crate::error::ErrorView;
use crate::ids;
use crate::json;
use crate::paths;
use crate::text;
use crate::urls;
use vstd::prelude::*;
use vstd::utf8::encode_utf8;

verus! {

// ---------------------------------------------------------------------------
// Texts
// ---------------------------------------------------------------------------
/// Whether the texts agree up to `k`, where the first one ends or has the smaller character.
pub open spec fn comes_first_at(a: Seq<char>, b: Seq<char>, k: int) -> bool {
    &&& 0 <= k <= a.len()
    &&& k < b.len()
    &&& a.take(k) == b.take(k)
    &&& k == a.len() || a[k] < b[k]
}

/// Texts are in the order of their first difference: that with the smaller character comes
/// first, and so does a text that another one goes on from.
pub proof fn texts_are_in_order_of_their_first_difference(a: Seq<char>, b: Seq<char>)
    ensures
        text::text_lt(a, b) <==> exists|k: int| #[trigger] comes_first_at(a, b, k),
    decreases a.len(),
{
    if b.len() == 0 {
    } else if a.len() == 0 {
        assert(a.take(0) =~= b.take(0));
        assert(comes_first_at(a, b, 0));
    } else if a[0] != b[0] {
        if a[0] < b[0] {
            assert(a.take(0) =~= b.take(0));
            assert(comes_first_at(a, b, 0));
        }
        if exists|k: int| #[trigger] comes_first_at(a, b, k) {
            let k = choose|k: int| #[trigger] comes_first_at(a, b, k);
            if k > 0 {
                assert(a.take(k)[0] == b.take(k)[0]);
            }
        }
    } else {
        let (x, y) = (a.drop_first(), b.drop_first());
        texts_are_in_order_of_their_first_difference(x, y);
        if exists|k: int| #[trigger] comes_first_at(x, y, k) {
            let k = choose|k: int| #[trigger] comes_first_at(x, y, k);
            assert(a.take(k + 1) =~= seq![a[0]] + x.take(k));
            assert(b.take(k + 1) =~= seq![b[0]] + y.take(k));
            assert(comes_first_at(a, b, k + 1));
        }
        if exists|k: int| #[trigger] comes_first_at(a, b, k) {
            let k = choose|k: int| #[trigger] comes_first_at(a, b, k);
            assert(k > 0);
            assert(x.take(k - 1) =~= a.take(k).drop_first());
            assert(y.take(k - 1) =~= b.take(k).drop_first());
            assert(comes_first_at(x, y, k - 1));
        }
    }
}

/// Texts are joined with the separator between each two of them, and nowhere else.
pub proof fn joining_puts_the_separator_between(a: Seq<Seq<char>>, b: Seq<Seq<char>>, sep: Seq<char>)
    ensures
        text::joined(Seq::empty(), sep).len() == 0,
        a.len() == 1 ==> text::joined(a, sep) == a[0],
        a.len() > 0 && b.len() > 0 ==> text::joined(a + b, sep) == text::joined(a, sep) + sep
            + text::joined(b, sep),
    decreases b.len(),
{
    if a.len() > 0 && b.len() > 0 {
        let all = a + b;
        let front = b.drop_last();
        assert(all.drop_last() =~= a + front);
        assert(all.last() == b.last());
        if b.len() == 1 {
            assert(a + front =~= a);
        } else {
            joining_puts_the_separator_between(a, front, sep);
            assert(text::joined(all, sep) =~= text::joined(a, sep) + sep + text::joined(b, sep));
        }
    }
}

/// A number in decimal notation has digits only, with no zero in front of others, and is worth
/// the number.
pub proof fn decimals_spell_their_number(n: nat)
    ensures
        text::decimal(n).len() > 0,
        forall|i: int|
            0 <= i < text::decimal(n).len() ==> '0' <= (#[trigger] text::decimal(n)[i]) <= '9',
        text::decimal(n).len() > 1 ==> text::decimal(n)[0] != '0',
        n >= 10 ==> text::decimal(n).drop_last() == text::decimal(n / 10),
        text::decimal(n).last() as u32 - '0' as u32 == n % 10,
    decreases n,
{
    text::lemma_decimal_value(n);
    assert forall|i: int| 0 <= i < text::decimal(n).len() implies '0' <= (
    #[trigger] text::decimal(n)[i]) <= '9' by {
        assert(text::ascii_digit(text::decimal(n)[i]));
    }
    if n >= 10 {
        decimals_spell_their_number(n / 10);
        assert(text::decimal(n).drop_last() =~= text::decimal(n / 10));
        if n / 10 < 10 {
            assert(text::decimal(n / 10)[0] == text::digit_char((n / 10) as int));
        }
        assert(text::decimal(n)[0] == text::decimal(n / 10)[0]);
    }
}

/// A number is read from digits, with an optional plus in front and nothing else around them, if
/// it can be held.
pub proof fn numbers_are_read_from_digits(s: Seq<char>)
    ensures
        text::parsed_u64(s) matches Some(n) ==> {
            &&& s.len() > 0
            &&& forall|i: int| 1 <= i < s.len() ==> '0' <= (#[trigger] s[i]) <= '9'
            &&& s[0] == '+' ==> s.len() > 1 && n == text::digits_value(s.drop_first())
            &&& s[0] != '+' ==> '0' <= s[0] <= '9' && n == text::digits_value(s)
        },
        s.len() == 0 ==> text::parsed_u64(s) is None,
        s.len() > 1 && s[0] == '+' && s[1] != '+' ==> text::parsed_u64(s) == text::parsed_u64(
            s.drop_first(),
        ),
        (exists|i: int|
            1 <= i < s.len() && !('0' <= (#[trigger] s[i]) <= '9')) ==> text::parsed_u64(s) is None,
{
    if text::parsed_u64(s) is Some {
        let d = if s[0] == '+' {
            s.drop_first()
        } else {
            s
        };
        assert forall|i: int| 1 <= i < s.len() implies '0' <= (#[trigger] s[i]) <= '9' by {
            if s[0] == '+' {
                assert(text::ascii_digit(d[i - 1]));
            } else {
                assert(text::ascii_digit(d[i]));
            }
        }
        assert(text::ascii_digit(d[0]));
    }
}

/// One more digit makes ten times the number and the digit.
pub proof fn digits_count_in_tens(s: Seq<char>, c: char)
    requires
        '0' <= c <= '9',
        text::all_digits(s),
    ensures
        text::digits_value(s.push(c)) == 10 * text::digits_value(s) + (c as u32 - '0' as u32),
        text::digits_value(Seq::empty()) == 0,
{
    assert(s.push(c).drop_last() =~= s);
}

/// White space is what Unicode says it is: the ASCII blanks, the other line breaks and the
/// spaces of several widths.
pub proof fn white_space_is_that_of_unicode(c: char)
    ensures
        text::white_space(c) <==> {
            ||| c == ' ' || c == '\t' || c == '\n' || c == '\r' || c == '\x0b' || c == '\x0c'
            ||| c == '\u{85}' || c == '\u{2028}' || c == '\u{2029}'
            ||| c == '\u{a0}' || c == '\u{1680}' || c == '\u{202f}' || c == '\u{205f}' || c
                == '\u{3000}'
            ||| '\u{2000}' <= c <= '\u{200a}'
        },
{
}

/// A text is as long in bytes as its characters together: one for ASCII, and up to four.
pub proof fn texts_are_as_long_as_their_characters(s: Seq<char>, c: char)
    ensures
        text::byte_len(Seq::empty()) == 0,
        text::byte_len(s.push(c)) == text::byte_len(s) + (if c <= '\u{7f}' {
            1int
        } else if c <= '\u{7ff}' {
            2
        } else if c <= '\u{ffff}' {
            3
        } else {
            4
        }),
        text::byte_len(s) == encode_utf8(s).len(),
{
    text::lemma_byte_len_push(s, c);
    text::lemma_byte_len_bounds(Seq::empty());
}

/// What a text begins with is a part of it from its start, and what occurs in it is a part of it
/// from somewhere.
pub proof fn beginnings_and_parts(s: Seq<char>, p: Seq<char>, rest: Seq<char>, before: Seq<char>)
    ensures
        text::starts_with(p + rest, p),
        text::starts_with(s, p) ==> s == p + s.skip(p.len() as int),
        text::occurs_in(p, before + p + rest),
        text::occurs_in(p, s) ==> exists|i: int|
            0 <= i && i + p.len() <= s.len() && #[trigger] s.subrange(i, i + p.len()) == p,
{
    assert((p + rest).take(p.len() as int) =~= p);
    if text::starts_with(s, p) {
        assert(s =~= p + s.skip(p.len() as int));
    }
    let n = before.len() as int;
    let all = before + p + rest;
    assert(all.subrange(n, n + p.len()) =~= p);
    assert(text::stands_at(p, all, n));
    if text::occurs_in(p, s) {
        let i = choose|i: int| #[trigger] text::stands_at(p, s, i);
        assert(s.subrange(i, i + p.len()) == p);
    }
}

// ---------------------------------------------------------------------------
// Names in paths
// ---------------------------------------------------------------------------
/// Whether a text is the name of a file: not empty, without separators, and neither of the two
/// names that stand for directories.
pub open spec fn is_name(n: Seq<char>) -> bool {
    &&& n.len() > 0
    &&& forall|i: int| 0 <= i < n.len() ==> (#[trigger] n[i]) != '/'
    &&& n != "."@
    &&& n != ".."@
}

proof fn lemma_after_last(s: Seq<char>, c: char, n: int)
    requires
        0 <= n <= s.len(),
    ensures
        0 <= paths::after_last(s, c, n) <= n,
        paths::after_last(s, c, n) > 0 ==> s[paths::after_last(s, c, n) - 1] == c,
        forall|i: int| paths::after_last(s, c, n) <= i < n ==> (#[trigger] s[i]) != c,
    decreases n,
{
    if n > 0 && s[n - 1] != c {
        lemma_after_last(s, c, n - 1);
    }
}

/// Whether `s[n..]` is made of separators and single dots behind separators.
proof fn lemma_slashes(s: Seq<char>, n: int, m: int)
    requires
        0 <= n <= m <= s.len(),
        forall|i: int| n <= i < m ==> (#[trigger] s[i]) == '/',
    ensures
        paths::stripped_len(s, m) == paths::stripped_len(s, n),
    decreases m - n,
{
    if n < m {
        assert(s[m - 1] == '/');
        lemma_slashes(s, n, m - 1);
    }
}

/// The name of a file is what follows the last separator of its path; separators at the end do
/// not count.
pub proof fn files_are_named_behind_the_last_separator(
    dir: Seq<char>,
    name: Seq<char>,
    slashes: Seq<char>,
)
    requires
        is_name(name),
        dir.len() == 0 || dir.last() == '/',
        forall|i: int| 0 <= i < slashes.len() ==> (#[trigger] slashes[i]) == '/',
    ensures
        paths::file_name(dir + name + slashes) == Some(name),
{
    let s = dir + name + slashes;
    let a = dir.len() as int;
    let b = a + name.len() as int;
    assert forall|i: int| b <= i < s.len() implies (#[trigger] s[i]) == '/' by {
        assert(s[i] == slashes[i - b]);
    }
    lemma_slashes(s, b, s.len() as int);
    reveal_strlit(".");
    reveal_strlit("..");
    assert(s[b - 1] == name.last());
    assert(name[name.len() - 1] != '/');
    assert(paths::stripped_len(s, b) == b) by {
        if name.last() == '.' && b >= 2 && s[b - 2] == '/' {
            if name.len() == 1 {
                assert(name =~= "."@);
            } else {
                assert(s[b - 2] == name[name.len() - 2]);
            }
        }
    }
    lemma_after_last(s, '/', b);
    let k = paths::after_last(s, '/', b);
    assert(k == a) by {
        if k > a {
            assert(s[k - 1] == name[k - 1 - a]);
        }
        if k < a {
            assert(s[a - 1] == dir.last());
        }
    }
    assert(s.subrange(a, b) =~= name);
}

/// The extension of a file is what follows the last dot of its name. A name without a dot, or
/// with its only dot in front, has none.
pub proof fn extensions_follow_the_last_dot(stem: Seq<char>, ext: Seq<char>)
    requires
        forall|i: int| 0 <= i < ext.len() ==> (#[trigger] ext[i]) != '.',
    ensures
        stem.len() > 0 ==> paths::name_extension(stem + seq!['.'] + ext) == Some(ext),
        paths::name_extension(seq!['.'] + ext) is None,
        paths::name_extension(ext) is None,
{
    let s = stem + seq!['.'] + ext;
    let n = s.len() as int;
    lemma_after_last(s, '.', n);
    let k = paths::after_last(s, '.', n);
    assert(s[stem.len() as int] == '.');
    assert(k == stem.len() + 1) by {
        if k > stem.len() + 1 {
            assert(s[k - 1] == ext[k - 1 - stem.len() - 1]);
        }
    }
    assert(s.skip(k) =~= ext);
    let t = seq!['.'] + ext;
    lemma_after_last(t, '.', t.len() as int);
    let j = paths::after_last(t, '.', t.len() as int);
    if j > 1 {
        assert(t[j - 1] == ext[j - 2]);
    }
    lemma_after_last(ext, '.', ext.len() as int);
    let m = paths::after_last(ext, '.', ext.len() as int);
    if m > 0 {
        assert(ext[m - 1] != '.');
    }
}

/// The extension of a path is that of the file's name.
pub proof fn paths_have_the_extension_of_their_file(s: Seq<char>)
    ensures
        match paths::file_name(s) {
            Some(n) => paths::extension(s) == paths::name_extension(n),
            None => paths::extension(s) is None,
        },
{
}

/// A URL names a file by the last segment of its path, unless that is empty or there is none.
pub proof fn urls_name_their_last_segment(parts: Option<urls::PartsView>)
    ensures
        parts matches Some(p) ==> (p.last_segment matches Some(s) ==> (s.len() > 0
            ==> urls::name_in(parts) == Some(s)) && (s.len() == 0 ==> urls::name_in(parts)
            is None)),
        parts matches Some(p) ==> (p.last_segment is None ==> urls::name_in(parts) is None),
        parts is None ==> urls::name_in(parts) is None,
{
}

// ---------------------------------------------------------------------------
// Ids
// ---------------------------------------------------------------------------
/// What a hex digit is worth.
pub open spec fn hex_value(c: char) -> int {
    if '0' <= c <= '9' {
        c as u32 - '0' as u32
    } else {
        c as u32 - 'a' as u32 + 10
    }
}

/// A digest is written with two lower-case hex digits for each byte, the higher one first.
pub proof fn digests_are_written_in_hex(bytes: Seq<u8>, i: int)
    requires
        0 <= i < bytes.len(),
    ensures
        ({
            let t = ids::hex_text(bytes);
            &&& t.len() == 2 * bytes.len()
            &&& ids::lower_hex(t[2 * i]) && ids::lower_hex(t[2 * i + 1])
            &&& 16 * hex_value(t[2 * i]) + hex_value(t[2 * i + 1]) == bytes[i]
        }),
{
    assert((2 * i) / 2 == i && (2 * i) % 2 == 0);
    assert((2 * i + 1) / 2 == i && (2 * i + 1) % 2 == 1);
}

/// The number that four bytes are worth, the lowest first.
pub open spec fn number_of(b: Seq<u8>, at: int) -> int {
    b[at] + 256 * b[at + 1] + 65536 * b[at + 2] + 16777216 * b[at + 3]
}

/// A chunk's id is the digest of its document's id, the number of its block, its text and its
/// position, one after the other; the numbers take four bytes each, the lowest first.
pub proof fn chunk_ids_are_digests_of_place_and_text(
    resource_id: Seq<char>,
    block_seq: u32,
    words: Seq<char>,
    seq_in_block: u32,
)
    ensures
        ({
            let key = ids::chunk_key(resource_id, block_seq, words, seq_in_block);
            let (r, t) = (encode_utf8(resource_id), encode_utf8(words));
            let (n, m) = (r.len() as int, t.len() as int);
            &&& key.len() == n + m + 8
            &&& key.take(n) == r
            &&& number_of(key, n) == block_seq
            &&& key.subrange(n + 4, n + 4 + m) == t
            &&& number_of(key, n + 4 + m) == seq_in_block
            &&& ids::chunk_id_of(resource_id, block_seq, words, seq_in_block) == ids::hex_text(
                ids::blake3_of(key),
            )
        }),
{
    let key = ids::chunk_key(resource_id, block_seq, words, seq_in_block);
    let (r, t) = (encode_utf8(resource_id), encode_utf8(words));
    let (n, m) = (r.len() as int, t.len() as int);
    ids::lemma_le_bytes(block_seq);
    ids::lemma_le_bytes(seq_in_block);
    assert(key.take(n) =~= r);
    assert(key.subrange(n + 4, n + 4 + m) =~= t);
    assert(key.subrange(n, n + 4) =~= ids::le_bytes(block_seq));
    assert(key.subrange(n + 4 + m, n + 8 + m) =~= ids::le_bytes(seq_in_block));
    assert(key[n] == key.subrange(n, n + 4)[0] && key[n + 1] == key.subrange(n, n + 4)[1]);
    assert(key[n + 2] == key.subrange(n, n + 4)[2] && key[n + 3] == key.subrange(n, n + 4)[3]);
    let q = n + 4 + m;
    assert(key[q] == key.subrange(q, q + 4)[0] && key[q + 1] == key.subrange(q, q + 4)[1]);
    assert(key[q + 2] == key.subrange(q, q + 4)[2] && key[q + 3] == key.subrange(q, q + 4)[3]);
}

/// A resource's id is the digest of its URI and its content hash, one after the other; a content
/// hash is the digest of the content.
pub proof fn resource_ids_are_digests_of_uri_and_content(uri: Seq<char>, hash: Seq<char>)
    ensures
        ids::resource_id_of(uri, hash) == ids::hex_text(ids::blake3_of(encode_utf8(uri + hash))),
        ids::content_hash_of(uri) == ids::hex_text(ids::blake3_of(encode_utf8(uri))),
{
    text::lemma_encode_concat(uri, hash);
}

/// An optional field as hash input: nothing where it is absent, and behind a mark where it is
/// present.
pub open spec fn marked(field: Option<Seq<char>>) -> Seq<char> {
    if field is Some {
        seq!['\x01'] + field->0
    } else {
        Seq::empty()
    }
}

/// The hash input of a metadata state is its four fields in their order, with a NUL between each
/// two of them; that of a feed's local inputs is its three.
pub proof fn hash_inputs_are_fields_between_nuls(
    metadata_json: Seq<char>,
    external_id: Option<Seq<char>>,
    external_etag: Option<Seq<char>>,
    modified_at: Option<Seq<char>>,
    policy_version: Seq<char>,
    full: bool,
    max_entries: Option<u32>,
)
    ensures
        ids::metadata_hash_input(metadata_json, external_id, external_etag, modified_at)
            == metadata_json + (seq!['\x00'] + marked(external_id)) + (seq!['\x00'] + marked(
            external_etag,
        )) + (seq!['\x00'] + marked(modified_at)),
        ids::feed_inputs_text(policy_version, full, max_entries) == policy_version + (seq!['\x00']
            + (if full {
            "true"@
        } else {
            "false"@
        })) + (seq!['\x00'] + marked(
            if max_entries is Some {
                Some(text::decimal(max_entries->0 as nat))
            } else {
                None
            },
        )),
{
    assert(ids::metadata_hash_input(metadata_json, external_id, external_etag, modified_at)
        =~= metadata_json + (seq!['\x00'] + marked(external_id)) + (seq!['\x00'] + marked(
        external_etag,
    )) + (seq!['\x00'] + marked(modified_at)));
    assert(ids::feed_inputs_text(policy_version, full, max_entries) =~= policy_version + (
    seq!['\x00'] + (if full {
        "true"@
    } else {
        "false"@
    })) + (seq!['\x00'] + marked(
        if max_entries is Some {
            Some(text::decimal(max_entries->0 as nat))
        } else {
            None
        },
    )));
}

// ---------------------------------------------------------------------------
// JSON
// ---------------------------------------------------------------------------
/// Whether a character stands for itself in a JSON string.
pub open spec fn stands_for_itself(c: char) -> bool {
    c != '"' && c != '\\' && c >= ' '
}

proof fn lemma_escaped_concat(a: Seq<char>, b: Seq<char>)
    ensures
        json::escaped(a + b) == json::escaped(a) + json::escaped(b),
    decreases a.len(),
{
    if a.len() == 0 {
        assert(a + b =~= b);
        assert(json::escaped(a) + json::escaped(b) =~= json::escaped(b));
    } else {
        assert((a + b).drop_first() =~= a.drop_first() + b);
        lemma_escaped_concat(a.drop_first(), b);
        assert(json::escaped(a + b) =~= json::escaped(a) + json::escaped(b));
    }
}

/// A JSON string is the text between quotes, character by character. Most characters stand for
/// themselves; quotes, backslashes and control characters are behind a backslash.
pub proof fn json_strings_escape_what_they_must(a: Seq<char>, b: Seq<char>, c: char)
    ensures
        json::quoted(a) == seq!['"'] + json::escaped(a) + seq!['"'],
        json::escaped(a + b) == json::escaped(a) + json::escaped(b),
        stands_for_itself(c) ==> json::escaped(seq![c]) == seq![c],
        !stands_for_itself(c) ==> json::escaped(seq![c]).len() >= 2 && json::escaped(seq![c])[0]
            == '\\',
        json::escaped(seq!['"']) == seq!['\\', '"'],
        json::escaped(seq!['\\']) == seq!['\\', '\\'],
        json::escaped(seq!['\n']) == seq!['\\', 'n'],
        json::escaped(seq!['\r']) == seq!['\\', 'r'],
        json::escaped(seq!['\t']) == seq!['\\', 't'],
{
    lemma_escaped_concat(a, b);
    lemma_escaped_one(c);
    lemma_escaped_one('"');
    lemma_escaped_one('\\');
    lemma_escaped_one('\n');
    lemma_escaped_one('\r');
    lemma_escaped_one('\t');
}

proof fn lemma_escaped_one(c: char)
    ensures
        json::escaped(seq![c]) == json::escaped_char(c),
{
    assert(seq![c].drop_first() =~= Seq::empty());
    assert(json::escaped(Seq::<char>::empty()) =~= Seq::empty());
    assert(json::escaped(seq![c]) =~= json::escaped_char(c));
}

// ---------------------------------------------------------------------------
// Errors
// ---------------------------------------------------------------------------
/// The exit code tells what kind of failure it was: something was not found, something is in
/// the way, something cannot be reached, the request was at fault, or the program itself was.
pub proof fn exit_codes_go_by_the_kind_of_failure(e: ErrorView)
    ensures
        e.exit_code() == 3 <==> e is StoreNotFound || e is SourceNotFound || e is DocumentNotFound
            || e is JobNotFound,
        e.exit_code() == 4 <==> e is RuntimeStateLocked || e is DaemonRunning || e
            is ConfigReadonly || e is IndexInProgress,
        e.exit_code() == 5 <==> e is DaemonUnreachable || e is ProviderUnavailable || e
            is ModelMissing,
        e.exit_code() == 2 <==> e is InvalidConfig || e is InvalidRequest || e is Unauthorized || e
            is Forbidden || e is UnsupportedFormat || e is ExtractionFailed,
        e.exit_code() == 1 <==> e is Internal,
{
}

/// Whether a text is made of something to begin with and of the given one behind it.
pub open spec fn is_headed(s: Seq<char>, head: Seq<char>, m: Seq<char>) -> bool {
    head.len() > 0 && s == head + m
}

/// What an error is shown as ends in what it says, behind what kind of error it is.
#[verifier::rlimit(30)]
pub proof fn errors_are_shown_with_what_they_say(e: ErrorView)
    ensures
        e.bare() is Some ==> exists|head: Seq<char>| #[trigger]
            is_headed(e.display(), head, e.bare()->0),
        e matches ErrorView::ExtractionFailed { format, reason } ==> text::occurs_in(
            format,
            e.display(),
        ) && text::occurs_in(reason, e.display()),
        e matches ErrorView::Internal { message, correlation_id } ==> text::occurs_in(
            message,
            e.display(),
        ) && text::occurs_in(correlation_id, e.display()),
        e.bare() is None <==> e is RuntimeStateLocked || e is DaemonRunning || e
            is DaemonUnreachable || e is ConfigReadonly || e is ExtractionFailed || e
            is IndexInProgress || e is Internal,
{
    reveal_strlit("store not found: ");
    reveal_strlit("source not found: ");
    reveal_strlit("document not found: ");
    reveal_strlit("job not found: ");
    reveal_strlit("invalid config: ");
    reveal_strlit("invalid request: ");
    reveal_strlit("unauthorized: ");
    reveal_strlit("forbidden: ");
    reveal_strlit("unsupported format: ");
    reveal_strlit("provider unavailable: ");
    reveal_strlit("model missing: ");
    match e {
        ErrorView::ExtractionFailed { format, reason } => {
            let a = "extraction failed for "@;
            let b = ": "@;
            assert(e.display() =~= a + format + (b + reason));
            assert(e.display() =~= (a + format + b) + reason + Seq::empty());
            beginnings_and_parts(a, format, b + reason, a);
            beginnings_and_parts(a, reason, Seq::empty(), a + format + b);
        },
        ErrorView::Internal { message, correlation_id } => {
            let a = "internal error (correlation_id="@;
            let b = "): "@;
            assert(e.display() =~= a + correlation_id + (b + message));
            assert(e.display() =~= (a + correlation_id + b) + message + Seq::empty());
            beginnings_and_parts(a, correlation_id, b + message, a);
            beginnings_and_parts(a, message, Seq::empty(), a + correlation_id + b);
        },
        ErrorView::StoreNotFound { id } => {
            let head = "store not found: "@;
            assert(head.len() > 0);
            assert(is_headed(e.display(), head, e.bare()->0));
        },
        ErrorView::SourceNotFound { id } => {
            let head = "source not found: "@;
            assert(head.len() > 0);
            assert(is_headed(e.display(), head, e.bare()->0));
        },
        ErrorView::DocumentNotFound { id } => {
            let head = "document not found: "@;
            assert(head.len() > 0);
            assert(is_headed(e.display(), head, e.bare()->0));
        },
        ErrorView::JobNotFound { id } => {
            let head = "job not found: "@;
            assert(head.len() > 0);
            assert(is_headed(e.display(), head, e.bare()->0));
        },
        ErrorView::InvalidConfig { message } => {
            let head = "invalid config: "@;
            assert(head.len() > 0);
            assert(is_headed(e.display(), head, e.bare()->0));
        },
        ErrorView::InvalidRequest { message } => {
            let head = "invalid request: "@;
            assert(head.len() > 0);
            assert(is_headed(e.display(), head, e.bare()->0));
        },
        ErrorView::Unauthorized { message } => {
            let head = "unauthorized: "@;
            assert(head.len() > 0);
            assert(is_headed(e.display(), head, e.bare()->0));
        },
        ErrorView::Forbidden { message } => {
            let head = "forbidden: "@;
            assert(head.len() > 0);
            assert(is_headed(e.display(), head, e.bare()->0));
        },
        ErrorView::UnsupportedFormat { format } => {
            let head = "unsupported format: "@;
            assert(head.len() > 0);
            assert(is_headed(e.display(), head, e.bare()->0));
        },
        ErrorView::ProviderUnavailable { message } => {
            let head = "provider unavailable: "@;
            assert(head.len() > 0);
            assert(is_headed(e.display(), head, e.bare()->0));
        },
        ErrorView::ModelMissing { message } => {
            let head = "model missing: "@;
            assert(head.len() > 0);
            assert(is_headed(e.display(), head, e.bare()->0));
        },
        _ => {},
    }
}

/// Every kind of error has a code of its own.
#[verifier::rlimit(30)]
pub proof fn kinds_of_errors_have_their_own_codes(a: ErrorView, b: ErrorView)
    requires
        a.code() == b.code(),
    ensures
        a is StoreNotFound == b is StoreNotFound,
        a is SourceNotFound == b is SourceNotFound,
        a is DocumentNotFound == b is DocumentNotFound,
        a is JobNotFound == b is JobNotFound,
        a is RuntimeStateLocked == b is RuntimeStateLocked,
        a is DaemonRunning == b is DaemonRunning,
        a is DaemonUnreachable == b is DaemonUnreachable,
        a is ConfigReadonly == b is ConfigReadonly,
        a is InvalidConfig == b is InvalidConfig,
        a is InvalidRequest == b is InvalidRequest,
        a is Unauthorized == b is Unauthorized,
        a is Forbidden == b is Forbidden,
        a is UnsupportedFormat == b is UnsupportedFormat,
        a is ExtractionFailed == b is ExtractionFailed,
        a is ProviderUnavailable == b is ProviderUnavailable,
        a is ModelMissing == b is ModelMissing,
        a is IndexInProgress == b is IndexInProgress,
        a is Internal == b is Internal,
{
    reveal_strlit("store_not_found");
    reveal_strlit("source_not_found");
    reveal_strlit("document_not_found");
    reveal_strlit("job_not_found");
    reveal_strlit("runtime_state_locked");
    reveal_strlit("daemon_running");
    reveal_strlit("daemon_unreachable");
    reveal_strlit("config_readonly");
    reveal_strlit("invalid_config");
    reveal_strlit("invalid_request");
    reveal_strlit("unauthorized");
    reveal_strlit("forbidden");
    reveal_strlit("unsupported_format");
    reveal_strlit("extraction_failed");
    reveal_strlit("provider_unavailable");
    reveal_strlit("model_missing");
    reveal_strlit("index_in_progress");
    reveal_strlit("internal");
    let (x, y) = (a.code(), b.code());
    assert(x.len() == y.len());
    assert(x[0] == y[0]);
    assert(x[1] == y[1]);
    assert(x[2] == y[2]);
}

} // verus!
