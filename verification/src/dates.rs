//! Dates of documents: partial ISO 8601 dates, and timestamps in their canonical form.

use crate::calendar;
use crate::text;
use chrono::{DateTime, SecondsFormat, Utc};
use vstd::prelude::*;
use vstd::slice::slice_subrange;

verus! {

// ---------------------------------------------------------------------------
// RFC 3339 datetimes
// ---------------------------------------------------------------------------
/// What `chrono::DateTime::parse_from_rfc3339` makes of a text: the instant in UTC with
/// whole seconds and `Z`, or `None` where the text is refused.
pub uninterp spec fn rfc3339_utc(s: Seq<char>) -> Option<Seq<char>>;

/// Wraps `chrono::DateTime::parse_from_rfc3339`, the instant shifted to UTC by
/// `with_timezone` and written by `to_rfc3339_opts` with whole seconds and `Z`. The result
/// depends on the text alone. A text that is already of that form, for an instant from 1970
/// to the end of the year 9999, is read and written back unchanged.
#[verifier::external_body]
fn normalize_rfc3339(s: &str) -> (r: Option<String>)
    ensures
        text::opt_view(r) == rfc3339_utc(s@),
        forall|t: int|
            0 <= t < 253402300800 && s@ == #[trigger] calendar::unix_text(t) ==> text::opt_view(r)
                == Some(s@),
{
    let parsed = DateTime::parse_from_rfc3339(s).ok()?;
    Some(parsed.with_timezone(&Utc).to_rfc3339_opts(SecondsFormat::Secs, true))
}

// ---------------------------------------------------------------------------
// Partial dates
// ---------------------------------------------------------------------------
/// Whether two digits stand at `i`, of a value from `lo` to `hi`.
pub open spec fn digits_within(s: Seq<char>, i: int, lo: int, hi: int) -> bool {
    &&& text::ascii_digit(s[i])
    &&& text::ascii_digit(s[i + 1])
    &&& lo <= 10 * text::digit_value(s[i]) + text::digit_value(s[i + 1]) <= hi
}

/// Length of the date that `s` starts with: `YYYY`, `YYYY-MM` or `YYYY-MM-DD`. Only the last
/// may be followed by anything. Any month has days 01 to 31.
pub open spec fn date_prefix_len(s: Seq<char>) -> Option<int> {
    if s.len() < 4 || !text::all_digits(s.take(4)) {
        None
    } else if s.len() == 4 {
        Some(4)
    } else if s.len() < 7 || s[4] != '-' || !digits_within(s, 5, 1, 12) {
        None
    } else if s.len() == 7 {
        Some(7)
    } else if s.len() < 10 || s[7] != '-' || !digits_within(s, 8, 1, 31) {
        None
    } else {
        Some(10)
    }
}

/// Whether `s` is a date of one of the three shapes, with nothing after it.
pub open spec fn is_partial_date(s: Seq<char>) -> bool {
    date_prefix_len(s) == Some(s.len() as int)
}

/// Whether `rest` is a time of day with an offset, as RFC 3339 has it. It is tried behind a
/// fixed date, so that no calendar decides.
pub open spec fn valid_tail(rest: Seq<char>) -> bool {
    rfc3339_utc("2000-01-01T"@ + rest) is Some
}

/// The sortable date of a text: a partial date as it stands, a datetime cut to its date.
pub open spec fn partial_iso8601(raw: Seq<char>) -> Option<Seq<char>> {
    let s = text::trimmed(raw);
    match date_prefix_len(s) {
        None => None,
        Some(n) => if s.len() == n || ((s[n] == 'T' || s[n] == 't') && valid_tail(s.skip(n + 1))) {
            Some(s.take(n))
        } else {
            None
        },
    }
}

/// A text as the bound of a search by date: a partial date as it stands, a datetime in
/// UTC.
pub open spec fn date_or_datetime(raw: Seq<char>) -> Option<Seq<char>> {
    let s = text::trimmed(raw);
    match date_prefix_len(s) {
        None => None,
        Some(n) => if s.len() == n {
            Some(s)
        } else if s[n] == 'T' || s[n] == 't' {
            match rfc3339_utc(s) {
                Some(u) => if canonical_timestamp(u) {
                    Some(u)
                } else {
                    None
                },
                None => None,
            }
        } else {
            None
        },
    }
}

/// The two digits at `i`, if they are digits of a value from `lo` to `hi`.
fn digits_in_range(s: &[char], i: usize, lo: u32, hi: u32) -> (r: Option<u32>)
    requires
        i + 1 < s@.len(),
    ensures
        r is Some <==> digits_within(s@, i as int, lo as int, hi as int),
        r matches Some(v) ==> v == 10 * text::digit_value(s@[i as int]) + text::digit_value(
            s@[i + 1],
        ),
{
    let (a, b) = (s[i], s[i + 1]);
    if !text::is_ascii_digit(a) || !text::is_ascii_digit(b) {
        return None;
    }
    let v: u32 = 10 * (a as u32 - 48) + (b as u32 - 48);
    if lo <= v && v <= hi {
        Some(v)
    } else {
        None
    }
}

/// Length of the date that `s` starts with.
fn partial_date_prefix_len(s: &[char]) -> (r: Option<usize>)
    ensures
        match r {
            Some(n) => date_prefix_len(s@) == Some(n as int) && n <= s@.len(),
            None => date_prefix_len(s@) is None,
        },
{
    if s.len() < 4 {
        return None;
    }
    let year = slice_subrange(s, 0, 4);
    assert(year@ =~= s@.take(4));
    if !text::is_all_digits(year) {
        return None;
    }
    if s.len() == 4 {
        return Some(4);
    }
    if s.len() < 7 || s[4] != '-' || digits_in_range(s, 5, 1, 12).is_none() {
        return None;
    }
    if s.len() == 7 {
        return Some(7);
    }
    if s.len() < 10 || s[7] != '-' || digits_in_range(s, 8, 1, 31).is_none() {
        return None;
    }
    Some(10)
}

/// Whether `rest` is a time of day with an offset.
fn validate_full_datetime_tail(rest: &str) -> (r: bool)
    ensures
        r == valid_tail(rest@),
{
    let probe = text::concat("2000-01-01T", rest);
    normalize_rfc3339(probe.as_str()).is_some()
}

/// Normalizes a date or a datetime to its sortable ISO 8601 date.
///
/// White space around it is ignored. `YYYY`, `YYYY-MM` and `YYYY-MM-DD` are returned as they
/// are; `YYYY-MM-DDTHH:MM:SS[.fraction](Z|+HH:MM|-HH:MM)` is cut to its date. Anything else
/// gives `None`.
pub fn parse_partial_iso8601(raw: &str) -> (r: Option<String>)
    ensures
        text::opt_view(r) == partial_iso8601(raw@),
{
    let chars = text::chars_of(raw);
    let s = text::trim_chars(chars.as_slice());
    let n: usize = match partial_date_prefix_len(s) {
        Some(n) => n,
        None => return None,
    };
    let date = text::string_of(slice_subrange(s, 0, n));
    assert(date@ =~= s@.take(n as int));
    if s.len() == n {
        return Some(date);
    }
    if s[n] != 'T' && s[n] != 't' {
        return None;
    }
    let rest = text::string_of(slice_subrange(s, n + 1, s.len()));
    assert(rest@ =~= s@.skip(n + 1));
    if validate_full_datetime_tail(rest.as_str()) {
        Some(date)
    } else {
        None
    }
}

/// Normalizes a date or a datetime to a bound that stored timestamps are compared with.
///
/// Partial dates are returned as they are. A datetime becomes the same instant in UTC, in the
/// canonical form; where the shift leaves the years 0000 to 9999 it is refused, for such a
/// year would be written with a sign and sort wrongly.
pub fn parse_date_or_datetime(raw: &str) -> (r: Option<String>)
    ensures
        text::opt_view(r) == date_or_datetime(raw@),
        // Stored timestamps are returned as they are.
        forall|t: int|
            0 <= t < 253402300800 && raw@ == #[trigger] calendar::unix_text(t) ==> text::opt_view(r)
                == Some(raw@),
{
    proof {
        assert forall|t: int| 0 <= t < 253402300800 && raw@ == #[trigger] calendar::unix_text(
            t,
        ) implies canonical_timestamp(raw@) && date_prefix_len(raw@) == Some(10int)
            && text::trimmed(raw@) == raw@ && raw@.len() == 20 && raw@[10] == 'T' by {
            calendar::unix_text_fields(t);
            lemma_fields_are_canonical(raw@);
        }
    }
    let chars = text::chars_of(raw);
    let s = text::trim_chars(chars.as_slice());
    let n: usize = match partial_date_prefix_len(s) {
        Some(n) => n,
        None => return None,
    };
    let whole = text::string_of(s);
    if s.len() == n {
        return Some(whole);
    }
    if s[n] != 'T' && s[n] != 't' {
        return None;
    }
    bound_of(normalize_rfc3339(whole.as_str()))
}

/// The instant as a bound: only the canonical form will do.
pub fn bound_of(normalized: Option<String>) -> (r: Option<String>)
    ensures
        text::opt_view(r) == (match normalized {
            Some(u) => if canonical_timestamp(u@) {
                Some(u@)
            } else {
                None
            },
            None => None,
        }),
{
    match normalized {
        Some(u) => if is_canonical_timestamp(u.as_str()) {
            Some(u)
        } else {
            None
        },
        None => None,
    }
}

// ---------------------------------------------------------------------------
// The canonical form
// ---------------------------------------------------------------------------
/// Whether `c` may stand at position `i` of `YYYY-MM-DDTHH:MM:SSZ`.
pub open spec fn fits_at(c: char, i: int) -> bool {
    if i == 4 || i == 7 {
        c == '-'
    } else if i == 10 {
        c == 'T'
    } else if i == 13 || i == 16 {
        c == ':'
    } else if i == 19 {
        c == 'Z'
    } else {
        text::ascii_digit(c)
    }
}

/// Whether `s` has the form `YYYY-MM-DDTHH:MM:SSZ` of stored timestamps.
pub open spec fn canonical_timestamp(s: Seq<char>) -> bool {
    s.len() == 20 && forall|i: int| 0 <= i < 20 ==> fits_at(#[trigger] s[i], i)
}

fn fits(c: char, i: usize) -> (r: bool)
    ensures
        r == fits_at(c, i as int),
{
    if i == 4 || i == 7 {
        c == '-'
    } else if i == 10 {
        c == 'T'
    } else if i == 13 || i == 16 {
        c == ':'
    } else if i == 19 {
        c == 'Z'
    } else {
        text::is_ascii_digit(c)
    }
}

/// Whether `s` has the form `YYYY-MM-DDTHH:MM:SSZ`. Timestamps are compared as texts, so
/// every stored one must have it.
pub fn is_canonical_timestamp(s: &str) -> (r: bool)
    ensures
        r == canonical_timestamp(s@),
{
    let chars = text::chars_of(s);
    if chars.len() != 20 {
        return false;
    }
    let mut i: usize = 0;
    while i < 20
        invariant
            i <= 20,
            chars@ == s@,
            s@.len() == 20,
            forall|j: int| 0 <= j < i ==> fits_at(#[trigger] s@[j], j),
        decreases 20 - i,
    {
        if !fits(chars[i], i) {
            assert(!fits_at(s@[i as int], i as int));
            return false;
        }
        i += 1;
    }
    true
}

/// The latest instant that a date of its precision can mean. Every month counts as having 31
/// days, which compares right with the days of shorter months.
pub open spec fn widened(value: Seq<char>) -> Seq<char> {
    let n = text::byte_len(value);
    if n == 4 {
        value + "-12-31T23:59:59Z"@
    } else if n == 7 {
        value + "-31T23:59:59Z"@
    } else if n == 10 {
        value + "T23:59:59Z"@
    } else {
        value
    }
}

/// Widens an upper bound to the latest instant of its own precision; what has none of the
/// three lengths of a partial date is returned as it is.
pub fn widen_date_upper_bound(value: &str) -> (r: String)
    ensures
        r@ == widened(value@),
{
    let n: usize = text::str_byte_len(value);
    if n == 4 {
        text::concat(value, "-12-31T23:59:59Z")
    } else if n == 7 {
        text::concat(value, "-31T23:59:59Z")
    } else if n == 10 {
        text::concat(value, "T23:59:59Z")
    } else {
        value.to_owned()
    }
}

// ---------------------------------------------------------------------------
// Laws
// ---------------------------------------------------------------------------
/// A text without white space at its ends trims to itself.
proof fn lemma_trimmed_already(s: Seq<char>)
    requires
        s.len() > 0,
        !text::white_space(s[0]),
        !text::white_space(s.last()),
    ensures
        text::trimmed(s) == s,
{
}

/// The characters of a partial date are digits and hyphens.
proof fn lemma_partial_date_ends(s: Seq<char>)
    requires
        is_partial_date(s),
    ensures
        text::ascii_digit(s[0]),
        text::ascii_digit(s.last()),
        date_prefix_len(s) matches Some(n) && (n == 4 || n == 7 || n == 10),
{
    assert(s.take(4)[0] == s[0]);
    assert(s.take(4)[3] == s[3]);
}

/// Normalizing a date a second time changes nothing: the result is a partial date, and
/// partial dates are kept as they are.
pub proof fn normalized_dates_are_stable(raw: Seq<char>)
    requires
        partial_iso8601(raw) is Some,
    ensures
        ({
            let d = partial_iso8601(raw)->0;
            &&& is_partial_date(d)
            &&& partial_iso8601(d) == Some(d)
            &&& date_or_datetime(d) == Some(d)
        }),
{
    let s = text::trimmed(raw);
    let n = date_prefix_len(s)->0;
    let d = s.take(n);
    assert(d.take(4) =~= s.take(4));
    assert(is_partial_date(d));
    lemma_partial_date_ends(d);
    lemma_trimmed_already(d);
    assert(d.take(d.len() as int) =~= d);
}

/// The texts that instants are stored as are in the canonical form.
pub proof fn stored_instants_are_canonical(t: int)
    requires
        0 <= t < 253402300800,
    ensures
        canonical_timestamp(calendar::unix_text(t)),
{
    calendar::unix_text_fields(t);
    lemma_fields_are_canonical(calendar::unix_text(t));
}

proof fn lemma_fields_are_canonical(u: Seq<char>)
    requires
        calendar::timestamp_fields(u),
    ensures
        canonical_timestamp(u),
        date_prefix_len(u) == Some(10int),
        text::trimmed(u) == u,
{
    assert(text::all_digits(u.take(4)));
    lemma_trimmed_already(u);
}

/// Texts of one length, where the first difference always has the smaller character in `a`.
proof fn lemma_not_after(a: Seq<char>, b: Seq<char>)
    requires
        a.len() == b.len(),
        forall|k: int|
            0 <= k < a.len() && a.take(k) == b.take(k) ==> #[trigger] a[k] <= b[k],
    ensures
        !text::text_lt(b, a),
    decreases a.len(),
{
    if a.len() > 0 && a[0] == b[0] {
        let (x, y) = (a.drop_first(), b.drop_first());
        assert forall|k: int| 0 <= k < x.len() && x.take(k) == y.take(k) implies #[trigger] x[k]
            <= y[k] by {
            assert(a.take(k + 1) =~= seq![a[0]] + x.take(k));
            assert(b.take(k + 1) =~= seq![b[0]] + y.take(k));
            assert(a[k + 1] <= b[k + 1]);
        }
        lemma_not_after(x, y);
    } else if a.len() > 0 {
        assert(a.take(0) =~= b.take(0));
        assert(a[0] <= b[0]);
    }
}

/// A proper prefix comes before the text.
proof fn lemma_prefix_lt(p: Seq<char>, s: Seq<char>)
    requires
        text::starts_with(s, p),
        p.len() < s.len(),
    ensures
        text::text_lt(p, s),
{
    let rest = s.skip(p.len() as int);
    assert(s =~= p + rest);
    assert(p =~= p + Seq::<char>::empty());
    calendar::lemma_lt_prefix(p, Seq::<char>::empty(), rest);
}

/// A date's widened bound is not before any timestamp of that year, month or day, and the date
/// itself is before all of them. So a plain comparison of texts finds a timestamp between the
/// two exactly where the date covers it. A timestamp is any text of the canonical form with its
/// fields in their ranges, such as the text of an instant from 1970 on.
pub proof fn widened_bounds_cover_the_date(date: Seq<char>, u: Seq<char>)
    requires
        is_partial_date(date),
        calendar::timestamp_fields(u),
        text::starts_with(u, date),
    ensures
        text::text_lt(date, u),
        !text::text_lt(widened(date), u),
{
    let w = widened(date);
    let n = date.len() as int;
    lemma_partial_date_ends(date);
    lemma_prefix_lt(date, u);
    lemma_ascii_date(date);
    reveal_strlit("-12-31T23:59:59Z");
    reveal_strlit("-31T23:59:59Z");
    reveal_strlit("T23:59:59Z");
    assert(w.len() == 20);
    assert forall|k: int| 0 <= k < 20 && u.take(k) == w.take(k) implies #[trigger] u[k] <= w[k] by {
        if k < n {
            assert(u.take(n)[k] == date[k]);
        } else {
            assert(u.take(k)[k - 1] == w.take(k)[k - 1]);
            assert(u[k - 1] == w[k - 1]);
        }
    }
    lemma_not_after(u, w);
}

/// The characters of a partial date take one byte each.
pub(crate) proof fn lemma_ascii_date(date: Seq<char>)
    requires
        is_partial_date(date),
    ensures
        text::byte_len(date) == date.len(),
{
    lemma_partial_date_ends(date);
    assert(date.take(4)[0] == date[0] && date.take(4)[1] == date[1]);
    assert(date.take(4)[2] == date[2] && date.take(4)[3] == date[3]);
    lemma_ascii_len(date);
}

proof fn lemma_ascii_len(s: Seq<char>)
    requires
        forall|i: int| 0 <= i < s.len() ==> (#[trigger] s[i]) as u32 <= 0x7f,
    ensures
        text::byte_len(s) == s.len(),
    decreases s.len(),
{
    if s.len() > 0 {
        lemma_ascii_len(s.drop_last());
        text::lemma_byte_len_push(s.drop_last(), s.last());
        assert(s =~= s.drop_last().push(s.last()));
    } else {
        text::lemma_byte_len_bounds(s);
    }
}

} // verus!
