//! What is promised of dates and of the calendar.

use crate::calendar;
use crate::dates;
use crate::text;
use vstd::prelude::*;

verus! {

// ---------------------------------------------------------------------------
// Partial dates
// ---------------------------------------------------------------------------
/// The two digits at `i`, as a number.
pub open spec fn number_at(s: Seq<char>, i: int) -> int {
    10 * (s[i] as u32 - '0' as u32) + (s[i + 1] as u32 - '0' as u32)
}

/// Whether digits stand at `a..b`.
pub open spec fn digits_at(s: Seq<char>, a: int, b: int) -> bool {
    forall|i: int| a <= i < b ==> '0' <= (#[trigger] s[i]) <= '9'
}

/// Whether a text is a year of four digits, a year and a month from 01 to 12, or a year, a
/// month and a day from 01 to 31, with hyphens between them.
pub open spec fn is_date(s: Seq<char>) -> bool {
    let has_month = s.len() >= 7 && s[4] == '-' && digits_at(s, 5, 7) && 1 <= number_at(s, 5) <= 12;
    let has_day = s.len() >= 10 && s[7] == '-' && digits_at(s, 8, 10) && 1 <= number_at(s, 8) <= 31;
    &&& s.len() >= 4
    &&& digits_at(s, 0, 4)
    &&& s.len() == 4 || (s.len() == 7 && has_month) || (s.len() == 10 && has_month && has_day)
}

proof fn lemma_date(s: Seq<char>)
    ensures
        dates::is_partial_date(s) == is_date(s),
{
    if s.len() >= 4 {
        let y = s.take(4);
        if digits_at(s, 0, 4) {
            assert forall|i: int| 0 <= i < 4 implies text::ascii_digit(#[trigger] y[i]) by {
                assert(y[i] == s[i]);
            }
        }
        if text::all_digits(y) {
            assert forall|i: int| 0 <= i < 4 implies '0' <= (#[trigger] s[i]) <= '9' by {
                assert(text::ascii_digit(y[i]));
            }
        }
        if s.len() >= 7 {
            assert(text::ascii_digit(s[5]) && text::ascii_digit(s[6]) <==> digits_at(s, 5, 7));
        }
        if s.len() >= 10 {
            assert(text::ascii_digit(s[8]) && text::ascii_digit(s[9]) <==> digits_at(s, 8, 10));
        }
    }
}

/// A year, a year with a month, or a whole date is taken as it stands, whatever white space is
/// around it.
pub proof fn dates_are_taken_as_they_stand(raw: Seq<char>)
    requires
        is_date(text::trimmed(raw)),
    ensures
        dates::partial_iso8601(raw) == Some(text::trimmed(raw)),
        dates::date_or_datetime(raw) == Some(text::trimmed(raw)),
{
    let s = text::trimmed(raw);
    lemma_date(s);
    assert(s.take(s.len() as int) =~= s);
}

/// What comes out is a date, and what goes in begins with it. Either there is nothing more, or
/// it is a whole date with a valid time of day behind a `T`.
pub proof fn sortable_dates_are_dates(raw: Seq<char>)
    ensures
        dates::partial_iso8601(raw) matches Some(d) ==> {
            let s = text::trimmed(raw);
            &&& is_date(d)
            &&& text::starts_with(s, d)
            &&& s == d || (d.len() == 10 && s.len() > 10 && (s[10] == 'T' || s[10] == 't')
                && dates::rfc3339_utc("2000-01-01T"@ + s.skip(11)) is Some)
        },
{
    if dates::partial_iso8601(raw) is Some {
        let s = text::trimmed(raw);
        let n = dates::date_prefix_len(s)->0;
        let d = s.take(n);
        assert(d.take(4) =~= s.take(4));
        assert(dates::is_partial_date(d));
        lemma_date(d);
        if s.len() == n {
            assert(d =~= s);
        }
        assert(s.take(d.len() as int) =~= d);
    }
}

/// A whole date with a time of day behind a `T` is cut to its date if the time is valid, and
/// refused otherwise. As a bound it becomes the instant in UTC, if that has the stored form.
pub proof fn datetimes_are_cut_or_shifted(raw: Seq<char>, date: Seq<char>, rest: Seq<char>, t: char)
    requires
        text::trimmed(raw) == date + seq![t] + rest,
        is_date(date),
        date.len() == 10,
        t == 'T' || t == 't',
    ensures
        dates::partial_iso8601(raw) == (if dates::rfc3339_utc("2000-01-01T"@ + rest) is Some {
            Some(date)
        } else {
            None
        }),
        dates::date_or_datetime(raw) == (match dates::rfc3339_utc(text::trimmed(raw)) {
            Some(u) => if is_stored_form(u) {
                Some(u)
            } else {
                None
            },
            None => None,
        }),
{
    let s = text::trimmed(raw);
    lemma_date(date);
    assert(s.take(4) =~= date.take(4));
    assert(s[5] == date[5] && s[6] == date[6] && s[8] == date[8] && s[9] == date[9]);
    assert(s[4] == date[4] && s[7] == date[7] && s[10] == t);
    assert(dates::date_prefix_len(s) == Some(10int));
    assert(s.take(10) =~= date);
    assert(s.skip(11) =~= rest);
    if let Some(u) = dates::rfc3339_utc(s) {
        stored_timestamps_have_one_form(u);
    }
}

/// Whatever begins with no date is refused; so is a date with anything but a time behind it.
pub proof fn other_texts_are_no_dates(raw: Seq<char>)
    requires
        ({
            let s = text::trimmed(raw);
            !is_date(s) && (s.len() <= 10 || !is_date(s.take(10)) || (s[10] != 'T' && s[10]
                != 't'))
        }),
    ensures
        dates::partial_iso8601(raw) is None,
        dates::date_or_datetime(raw) is None,
{
    let s = text::trimmed(raw);
    lemma_date(s);
    if dates::date_prefix_len(s) is Some {
        let n = dates::date_prefix_len(s)->0;
        let d = s.take(n);
        assert(d.take(4) =~= s.take(4));
        assert(dates::is_partial_date(d));
        lemma_date(d);
        if s.len() == n {
            assert(d =~= s);
        }
    }
}

/// Whether a text is `YYYY-MM-DDTHH:MM:SSZ`, with digits for the letters but `T` and `Z`.
pub open spec fn is_stored_form(s: Seq<char>) -> bool {
    &&& s.len() == 20
    &&& digits_at(s, 0, 4) && s[4] == '-' && digits_at(s, 5, 7) && s[7] == '-'
    &&& digits_at(s, 8, 10) && s[10] == 'T' && digits_at(s, 11, 13) && s[13] == ':'
    &&& digits_at(s, 14, 16) && s[16] == ':' && digits_at(s, 17, 19) && s[19] == 'Z'
}

/// Stored timestamps have one form.
pub proof fn stored_timestamps_have_one_form(s: Seq<char>)
    ensures
        dates::canonical_timestamp(s) == is_stored_form(s),
{
    if is_stored_form(s) {
        assert forall|i: int| 0 <= i < 20 implies dates::fits_at(#[trigger] s[i], i) by {}
    }
    if dates::canonical_timestamp(s) {
        assert(dates::fits_at(s[4], 4) && dates::fits_at(s[7], 7) && dates::fits_at(s[10], 10));
        assert(dates::fits_at(s[13], 13) && dates::fits_at(s[16], 16) && dates::fits_at(s[19], 19));
        assert forall|i: int|
            0 <= i < 20 && i != 4 && i != 7 && i != 10 && i != 13 && i != 16 && i
                != 19 implies '0' <= (#[trigger] s[i]) <= '9' by {
            assert(dates::fits_at(s[i], i));
        }
    }
}

/// The upper bound of a date is itself a timestamp of that date, and so the last one; what is no
/// date in length is left as it is.
pub proof fn upper_bounds_are_of_their_date(date: Seq<char>)
    requires
        is_date(date),
    ensures
        text::starts_with(dates::widened(date), date),
        calendar::timestamp_fields(dates::widened(date)),
{
    reveal_strlit("-12-31T23:59:59Z");
    reveal_strlit("-31T23:59:59Z");
    reveal_strlit("T23:59:59Z");
    lemma_date(date);
    dates::lemma_ascii_date(date);
    let w = dates::widened(date);
    assert(w.take(date.len() as int) =~= date);
}

/// A bound that has not the length of a date is left as it is.
pub proof fn other_bounds_are_left_alone(value: Seq<char>)
    requires
        text::byte_len(value) != 4,
        text::byte_len(value) != 7,
        text::byte_len(value) != 10,
    ensures
        dates::widened(value) == value,
{
}

// ---------------------------------------------------------------------------
// The calendar
// ---------------------------------------------------------------------------
/// Every fourth year is a leap year, but for full centuries, of which every fourth one is.
pub proof fn leap_years_are_gregorian(y: int)
    ensures
        y % 4 != 0 ==> !calendar::leap(y),
        y % 4 == 0 && y % 100 != 0 ==> calendar::leap(y),
        y % 100 == 0 ==> calendar::leap(y) == (y % 400 == 0),
{
}

/// The months have the lengths that everyone knows.
pub proof fn months_have_their_length(y: int)
    ensures
        calendar::days_in_month(y, 1) == 31,
        calendar::days_in_month(y, 2) == (if calendar::leap(y) {
            29int
        } else {
            28
        }),
        calendar::days_in_month(y, 3) == 31,
        calendar::days_in_month(y, 4) == 30,
        calendar::days_in_month(y, 5) == 31,
        calendar::days_in_month(y, 6) == 30,
        calendar::days_in_month(y, 7) == 31,
        calendar::days_in_month(y, 8) == 31,
        calendar::days_in_month(y, 9) == 30,
        calendar::days_in_month(y, 10) == 31,
        calendar::days_in_month(y, 11) == 30,
        calendar::days_in_month(y, 12) == 31,
{
}

/// Days are numbered one after the other: within a month, from month to month and from year to
/// year. The first day of 1970 has the number zero.
pub proof fn days_are_numbered_one_after_the_other(y: int, m: int, d: int)
    requires
        0 <= y,
        1 <= m <= 12,
        1 <= d <= calendar::days_in_month(y, m),
    ensures
        d < calendar::days_in_month(y, m) ==> calendar::day_number(y, m, d + 1)
            == calendar::day_number(y, m, d) + 1,
        d == calendar::days_in_month(y, m) && m < 12 ==> calendar::day_number(y, m + 1, 1)
            == calendar::day_number(y, m, d) + 1,
        d == 31 && m == 12 ==> calendar::day_number(y + 1, 1, 1) == calendar::day_number(y, m, d)
            + 1,
        calendar::day_number(1970, 1, 1) == 0,
{
    calendar::days_before_year_steps(y);
    reveal_with_fuel(calendar::days_before_month, 13);
}

/// An instant is written by its date and its time of day: the text of the second that comes
/// `h` hours, `mi` minutes and `s` seconds into a day is the date of that day and that time.
pub proof fn instants_are_written_by_date_and_time(
    y: int,
    m: int,
    d: int,
    h: int,
    mi: int,
    s: int,
)
    requires
        1970 <= y < 10000,
        1 <= m <= 12,
        1 <= d <= calendar::days_in_month(y, m),
        0 <= h < 24,
        0 <= mi < 60,
        0 <= s < 60,
    ensures
        ({
            let u = calendar::unix_text(
                86400 * calendar::day_number(y, m, d) + 3600 * h + 60 * mi + s,
            );
            &&& is_stored_form(u)
            &&& 100 * number_at(u, 0) + number_at(u, 2) == y
            &&& number_at(u, 5) == m
            &&& number_at(u, 8) == d
            &&& number_at(u, 11) == h
            &&& number_at(u, 14) == mi
            &&& number_at(u, 17) == s
        }),
{
    let n = calendar::day_number(y, m, d);
    lemma_after_1970(y, m, d);
    lemma_time_parts(n, h, mi, s);
    calendar::lemma_civil(y, m, d);
    lemma_written((y, m, d), h, mi, s);
}

proof fn lemma_after_1970(y: int, m: int, d: int)
    requires
        1970 <= y,
        1 <= m <= 12,
        1 <= d <= calendar::days_in_month(y, m),
    ensures
        calendar::day_number(y, m, d) >= 0,
{
    if y > 1970 || m > 1 || d > 1 {
        calendar::day_numbers_are_in_order((1970, 1, 1), (y, m, d));
    }
    days_are_numbered_one_after_the_other(1970, 1, 1);
}

proof fn lemma_time_parts(n: int, h: int, mi: int, s: int)
    requires
        0 <= n,
        0 <= h < 24,
        0 <= mi < 60,
        0 <= s < 60,
    ensures
        ({
            let t = 86400 * n + 3600 * h + 60 * mi + s;
            &&& t >= 0
            &&& t / 86400 == n
            &&& (t / 3600) % 24 == h
            &&& (t / 60) % 60 == mi
            &&& t % 60 == s
        }),
{
    let t = 86400 * n + 3600 * h + 60 * mi + s;
    assert(t / 3600 == 24 * n + h);
    assert(t / 60 == 1440 * n + 60 * h + mi);
}

proof fn lemma_written(date: (int, int, int), h: int, mi: int, s: int)
    requires
        0 <= date.0 < 10000,
        1 <= date.1 <= 12,
        1 <= date.2 <= 31,
        0 <= h < 24,
        0 <= mi < 60,
        0 <= s < 60,
    ensures
        ({
            let u = calendar::instant_text(date, h, mi, s);
            &&& is_stored_form(u)
            &&& 100 * number_at(u, 0) + number_at(u, 2) == date.0
            &&& number_at(u, 5) == date.1
            &&& number_at(u, 8) == date.2
            &&& number_at(u, 11) == h
            &&& number_at(u, 14) == mi
            &&& number_at(u, 17) == s
        }),
{
    calendar::lemma_instant_digits(date, h, mi, s);
    lemma_spelled(calendar::instant_text(date, h, mi, s), date, h, mi, s);
}

proof fn lemma_spelled(u: Seq<char>, date: (int, int, int), h: int, mi: int, s: int)
    requires
        calendar::timestamp_fields(u),
        calendar::spells(u, date, h, mi, s),
        0 <= date.0,
    ensures
        is_stored_form(u),
        100 * number_at(u, 0) + number_at(u, 2) == date.0,
        number_at(u, 5) == date.1,
        number_at(u, 8) == date.2,
        number_at(u, 11) == h,
        number_at(u, 14) == mi,
        number_at(u, 17) == s,
{
}

} // verus!
