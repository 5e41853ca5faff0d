//! The Gregorian calendar, and instants as RFC 3339 texts.

use crate::text;
use vstd::arithmetic::div_mod::*;
use vstd::prelude::*;

verus! {

// ---------------------------------------------------------------------------
// Dates
// ---------------------------------------------------------------------------
/// Every fourth year is a leap year, but of the centuries only every fourth.
pub open spec fn leap(y: int) -> bool {
    y % 4 == 0 && (y % 100 != 0 || y % 400 == 0)
}

pub open spec fn days_in_month(y: int, m: int) -> int {
    if m == 2 {
        if leap(y) {
            29
        } else {
            28
        }
    } else if m == 4 || m == 6 || m == 9 || m == 11 {
        30
    } else {
        31
    }
}

/// Whether there is such a date, in year 0 or later.
pub open spec fn valid_date(y: int, m: int, d: int) -> bool {
    0 <= y && 1 <= m <= 12 && 1 <= d <= days_in_month(y, m)
}

/// Days of year `y` before month `m`.
pub open spec fn days_before_month(y: int, m: int) -> int
    decreases m,
{
    if m <= 1 {
        0
    } else {
        days_before_month(y, m - 1) + days_in_month(y, m - 1)
    }
}

/// Days before year `y`, counted from year 0: 365 for each, and one for each leap year.
pub open spec fn days_before_year(y: int) -> int {
    365 * y + (y + 3) / 4 - (y + 99) / 100 + (y + 399) / 400
}

/// Number of a day, counted from 1970-01-01.
pub open spec fn day_number(y: int, m: int, d: int) -> int {
    days_before_year(y) + days_before_month(y, m) + d - 1 - 719528
}

/// The days before a year grow by the length of each year.
pub proof fn days_before_year_steps(y: int)
    requires
        0 <= y,
    ensures
        days_before_year(y + 1) == days_before_year(y) + (if leap(y) {
            366int
        } else {
            365
        }),
{
    lemma_ceiling_by_4(y);
    lemma_ceiling_by_100(y);
    lemma_ceiling_by_400(y);
}

/// Rounding up a quarter goes on at every fourth number.
proof fn lemma_ceiling_by_4(y: int)
    ensures
        (y + 4) / 4 == (y + 3) / 4 + (if y % 4 == 0 {
            1int
        } else {
            0
        }),
{
}

proof fn lemma_ceiling_by_100(y: int)
    ensures
        (y + 100) / 100 == (y + 99) / 100 + (if y % 100 == 0 {
            1int
        } else {
            0
        }),
        y % 100 == 0 ==> y % 4 == 0,
{
}

proof fn lemma_ceiling_by_400(y: int)
    ensures
        (y + 400) / 400 == (y + 399) / 400 + (if y % 400 == 0 {
            1int
        } else {
            0
        }),
        y % 400 == 0 ==> y % 100 == 0,
{
}

proof fn lemma_months(y: int)
    ensures
        days_before_month(y, 1) == 0,
        days_before_month(y, 2) == 31,
        ({
            let f = if leap(y) {
                29int
            } else {
                28
            };
            &&& days_before_month(y, 3) == 31 + f
            &&& days_before_month(y, 4) == 62 + f
            &&& days_before_month(y, 5) == 92 + f
            &&& days_before_month(y, 6) == 123 + f
            &&& days_before_month(y, 7) == 153 + f
            &&& days_before_month(y, 8) == 184 + f
            &&& days_before_month(y, 9) == 215 + f
            &&& days_before_month(y, 10) == 245 + f
            &&& days_before_month(y, 11) == 276 + f
            &&& days_before_month(y, 12) == 306 + f
        }),
{
    reveal_with_fuel(days_before_month, 13);
}

/// Whether one date comes before another.
pub open spec fn date_before(a: (int, int, int), b: (int, int, int)) -> bool {
    a.0 < b.0 || (a.0 == b.0 && (a.1 < b.1 || (a.1 == b.1 && a.2 < b.2)))
}

proof fn lemma_years_apart(a: int, b: int)
    requires
        0 <= a < b,
    ensures
        days_before_year(a) + (if leap(a) {
            366int
        } else {
            365
        }) <= days_before_year(b),
    decreases b - a,
{
    days_before_year_steps(a);
    if a + 1 < b {
        lemma_years_apart(a + 1, b);
    }
}

/// Earlier dates have smaller day numbers; so a day number names at most one date.
pub proof fn day_numbers_are_in_order(a: (int, int, int), b: (int, int, int))
    requires
        valid_date(a.0, a.1, a.2),
        valid_date(b.0, b.1, b.2),
        date_before(a, b),
    ensures
        day_number(a.0, a.1, a.2) < day_number(b.0, b.1, b.2),
{
    lemma_months(a.0);
    lemma_months(b.0);
    if a.0 < b.0 {
        lemma_years_apart(a.0, b.0);
        assert(days_before_month(a.0, a.1) + a.2 <= (if leap(a.0) {
            366int
        } else {
            365
        }));
    }
}

/// The date with the given day number.
pub open spec fn civil(days: int) -> (int, int, int) {
    choose|c: (int, int, int)| valid_date(c.0, c.1, c.2) && #[trigger] day_number(c.0, c.1, c.2) == days
}

pub proof fn lemma_civil(y: int, m: int, d: int)
    requires
        valid_date(y, m, d),
    ensures
        civil(day_number(y, m, d)) == (y, m, d),
{
    let a = (y, m, d);
    let days = day_number(a.0, a.1, a.2);
    assert(valid_date(a.0, a.1, a.2) && day_number(a.0, a.1, a.2) == days);
    let b = civil(days);
    assert(valid_date(b.0, b.1, b.2) && day_number(b.0, b.1, b.2) == days);
    if date_before(a, b) {
        day_numbers_are_in_order(a, b);
    } else if date_before(b, a) {
        day_numbers_are_in_order(b, a);
    }
}

/// The date with the given day number, from 1970 on.
pub fn civil_from_days(days: u64) -> (r: (u64, u64, u64))
    requires
        days <= 0x1_0000_0000_0000,
    ensures
        valid_date(r.0 as int, r.1 as int, r.2 as int),
        day_number(r.0 as int, r.1 as int, r.2 as int) == days,
        civil(days as int) == (r.0 as int, r.1 as int, r.2 as int),
{
    // Years are taken to begin in March, so that the leap day is the last one.
    let z: u64 = days + 719468;
    let era: u64 = z / 146097;
    let doe: u64 = z % 146097;
    let century: u64 = if doe / 36524 >= 4 {
        3
    } else {
        doe / 36524
    };
    let in_century: u64 = doe - century * 36524;
    let cycle: u64 = in_century / 1461;
    let in_cycle: u64 = in_century % 1461;
    let year: u64 = if in_cycle / 365 >= 4 {
        3
    } else {
        in_cycle / 365
    };
    let doy: u64 = in_cycle - year * 365;
    let yoe: u64 = century * 100 + cycle * 4 + year;
    let mp: u64 = (5 * doy + 2) / 153;
    let d: u64 = doy - (153 * mp + 2) / 5 + 1;
    let mo: u64 = if mp < 10 {
        mp + 3
    } else {
        mp - 9
    };
    let march_year: u64 = yoe + era * 400;
    let y: u64 = if mo <= 2 {
        march_year + 1
    } else {
        march_year
    };
    proof {
        lemma_parts(
            doe as int,
            century as int,
            in_century as int,
            cycle as int,
            in_cycle as int,
            year as int,
        );
        lemma_leap_year(era as int, century as int, cycle as int, year as int);
        lemma_before_march_year(era as int, century as int, cycle as int, year as int);
        assert(march_year == 400 * era + 100 * century + 4 * cycle + year);
        lemma_march_date(march_year as int, doy as int);
        assert(z == 146097 * era + doe);
        lemma_civil(y as int, mo as int, d as int);
    }
    (y, mo, d)
}

/// The centuries, cycles of four years, years and days of a stretch of 400 years.
proof fn lemma_parts(
    doe: int,
    century: int,
    in_century: int,
    cycle: int,
    in_cycle: int,
    year: int,
)
    requires
        0 <= doe < 146097,
        century == (if doe / 36524 >= 4 {
            3
        } else {
            doe / 36524
        }),
        in_century == doe - century * 36524,
        cycle == in_century / 1461,
        in_cycle == in_century % 1461,
        year == (if in_cycle / 365 >= 4 {
            3
        } else {
            in_cycle / 365
        }),
    ensures
        0 <= century <= 3,
        0 <= in_century <= 36524,
        0 <= cycle <= 24,
        0 <= year <= 3,
        0 <= in_cycle - year * 365 <= 365,
        in_cycle - year * 365 == 365 ==> year == 3 && (cycle < 24 || century == 3),
        doe == 36524 * century + 1461 * cycle + 365 * year + (in_cycle - year * 365),
{
}

/// Whether the year after one of a stretch of 400 years is leap.
proof fn lemma_leap_year(era: int, century: int, cycle: int, year: int)
    requires
        0 <= era,
        0 <= century <= 3,
        0 <= cycle <= 24,
        0 <= year <= 3,
    ensures
        leap(400 * era + 100 * century + 4 * cycle + year + 1) <==> year == 3 && (cycle < 24
            || century == 3),
{
    let y = 400 * era + 100 * century + 4 * cycle + year + 1;
    let w = 4 * cycle + year + 1;
    let v = 100 * century + w;
    if year == 3 {
        lemma_fundamental_div_mod_converse(y, 4, 100 * era + 25 * century + cycle + 1, 0);
    } else {
        lemma_fundamental_div_mod_converse(y, 4, 100 * era + 25 * century + cycle, year + 1);
    }
    if w == 100 {
        lemma_fundamental_div_mod_converse(y, 100, 4 * era + century + 1, 0);
    } else {
        lemma_fundamental_div_mod_converse(y, 100, 4 * era + century, w);
    }
    if v == 400 {
        lemma_fundamental_div_mod_converse(y, 400, era + 1, 0);
    } else {
        lemma_fundamental_div_mod_converse(y, 400, era, v);
    }
}

/// The date of a day of the year that begins on the 1st of March of `my`.
proof fn lemma_march_date(my: int, doy: int)
    requires
        0 <= my,
        0 <= doy <= 365,
        doy == 365 ==> leap(my + 1),
    ensures
        ({
            let mp = (5 * doy + 2) / 153;
            let d = doy - (153 * mp + 2) / 5 + 1;
            let mo = if mp < 10 {
                mp + 3
            } else {
                mp - 9
            };
            let y = if mo <= 2 {
                my + 1
            } else {
                my
            };
            &&& 0 <= mp <= 11
            &&& (153 * mp + 2) / 5 <= doy
            &&& valid_date(y, mo, d)
            &&& days_before_year(y) + days_before_month(y, mo) + d - 1 == days_before_year(my) + 59
                + (if leap(my) {
                1int
            } else {
                0
            }) + doy
        }),
{
    let mp = (5 * doy + 2) / 153;
    lemma_months(my);
    lemma_months(my + 1);
    days_before_year_steps(my);
    assert(mp == 0 || mp == 1 || mp == 2 || mp == 3 || mp == 4 || mp == 5 || mp == 6 || mp == 7
        || mp == 8 || mp == 9 || mp == 10 || mp == 11);
}

/// Days before the 1st of March of a year.
proof fn lemma_before_march_year(era: int, century: int, cycle: int, year: int)
    requires
        0 <= era,
        0 <= century <= 3,
        0 <= cycle <= 24,
        0 <= year <= 3,
    ensures
        ({
            let y = 400 * era + 100 * century + 4 * cycle + year;
            days_before_year(y) + 59 + (if leap(y) {
                1int
            } else {
                0
            }) == 146097 * era + 36524 * century + 1461 * cycle + 365 * year + 60
        }),
{
    let yoe = 100 * century + 4 * cycle + year;
    let y = 400 * era + yoe;
    assert((y + 3) / 4 == 100 * era + (yoe + 3) / 4);
    assert((y + 99) / 100 == 4 * era + (yoe + 99) / 100);
    assert((y + 399) / 400 == era + (yoe + 399) / 400);
    assert(y % 4 == year % 4);
    assert(y % 100 == (4 * cycle + year) % 100);
    assert(y % 400 == yoe % 400);
    assert((yoe + 3) / 4 == 25 * century + cycle + (year + 3) / 4);
    assert((yoe + 99) / 100 == century + (4 * cycle + year + 99) / 100);
}

// ---------------------------------------------------------------------------
// Instants
// ---------------------------------------------------------------------------
/// A date and a time of day as `YYYY-MM-DDTHH:MM:SSZ`.
pub open spec fn instant_text(date: (int, int, int), h: int, m: int, s: int) -> Seq<char> {
    text::decimal_padded(date.0 as nat, 4) + "-"@ + text::decimal_padded(date.1 as nat, 2) + "-"@
        + text::decimal_padded(date.2 as nat, 2) + "T"@ + text::decimal_padded(h as nat, 2) + ":"@
        + text::decimal_padded(m as nat, 2) + ":"@ + text::decimal_padded(s as nat, 2) + "Z"@
}

/// The instant that many seconds after the start of 1970, in UTC. Earlier instants count
/// as that start.
pub open spec fn unix_text(secs: int) -> Seq<char> {
    let t = if secs < 0 {
        0
    } else {
        secs
    };
    instant_text(civil(t / 86400), (t / 3600) % 24, (t / 60) % 60, t % 60)
}

/// Formats seconds since 1970 as an RFC 3339 text in UTC, without fractions.
pub fn format_unix(secs: i64) -> (r: String)
    ensures
        r@ == unix_text(secs as int),
{
    let t: u64 = if secs < 0 {
        0
    } else {
        secs as u64
    };
    let (y, mo, d) = civil_from_days(t / 86400);
    let mut out = String::new();
    text::push_decimal_padded(&mut out, y, 4);
    out.append("-");
    text::push_decimal_padded(&mut out, mo, 2);
    out.append("-");
    text::push_decimal_padded(&mut out, d, 2);
    out.append("T");
    text::push_decimal_padded(&mut out, (t / 3600) % 24, 2);
    out.append(":");
    text::push_decimal_padded(&mut out, (t / 60) % 60, 2);
    out.append(":");
    text::push_decimal_padded(&mut out, t % 60, 2);
    out.append("Z");
    assert(out@ =~= unix_text(secs as int));
    out
}

/// The two digits of a number below 100.
pub open spec fn digits2(n: int) -> Seq<char> {
    seq![text::digit_char(n / 10), text::digit_char(n % 10)]
}

/// The four digits of a number below 10000.
pub open spec fn digits4(n: int) -> Seq<char> {
    digits2(n / 100) + digits2(n % 100)
}

proof fn lemma_digits2(n: int)
    requires
        0 <= n < 100,
    ensures
        text::decimal_padded(n as nat, 2) == digits2(n),
{
    reveal_with_fuel(text::decimal, 3);
    assert(text::decimal_padded(n as nat, 2) =~= digits2(n));
}

proof fn lemma_digits4(n: int)
    requires
        0 <= n < 10000,
    ensures
        text::decimal_padded(n as nat, 4) == digits4(n),
{
    reveal_with_fuel(text::decimal, 5);
    assert(text::decimal_padded(n as nat, 4) =~= digits4(n));
}

proof fn lemma_digits2_order(a: int, b: int)
    requires
        0 <= a < b < 100,
    ensures
        text::text_lt(digits2(a), digits2(b)),
{
    reveal_with_fuel(text::text_lt, 3);
    let (x, y) = (digits2(a), digits2(b));
    assert(x.drop_first() =~= seq![text::digit_char(a % 10)]);
    assert(y.drop_first() =~= seq![text::digit_char(b % 10)]);
}

/// Texts with a common beginning compare as what follows it.
pub proof fn lemma_lt_prefix(p: Seq<char>, a: Seq<char>, b: Seq<char>)
    ensures
        text::text_lt(p + a, p + b) == text::text_lt(a, b),
    decreases p.len(),
{
    if p.len() == 0 {
        assert(p + a =~= a);
        assert(p + b =~= b);
    } else {
        assert((p + a).drop_first() =~= p.drop_first() + a);
        assert((p + b).drop_first() =~= p.drop_first() + b);
        lemma_lt_prefix(p.drop_first(), a, b);
    }
}

/// Texts whose beginnings of equal length differ compare as those.
pub proof fn lemma_lt_decided(a: Seq<char>, b: Seq<char>, x: Seq<char>, y: Seq<char>)
    requires
        a.len() == b.len(),
        text::text_lt(a, b),
    ensures
        text::text_lt(a + x, b + y),
    decreases a.len(),
{
    if a.len() > 0 {
        assert((a + x)[0] == a[0]);
        assert((b + y)[0] == b[0]);
        if a[0] == b[0] {
            assert((a + x).drop_first() =~= a.drop_first() + x);
            assert((b + y).drop_first() =~= b.drop_first() + y);
            lemma_lt_decided(a.drop_first(), b.drop_first(), x, y);
        }
    }
}

proof fn lemma_digits4_order(a: int, b: int)
    requires
        0 <= a < b < 10000,
    ensures
        text::text_lt(digits4(a), digits4(b)),
{
    if a / 100 == b / 100 {
        lemma_digits2_order(a % 100, b % 100);
        lemma_lt_prefix(digits2(a / 100), digits2(a % 100), digits2(b % 100));
    } else {
        lemma_digits2_order(a / 100, b / 100);
        lemma_lt_decided(digits2(a / 100), digits2(b / 100), digits2(a % 100), digits2(b % 100));
    }
}

/// The text from the month on.
spec fn from_month(m: int, d: int, h: int, mi: int, s: int) -> Seq<char> {
    "-"@ + (digits2(m) + from_day(d, h, mi, s))
}

spec fn from_day(d: int, h: int, mi: int, s: int) -> Seq<char> {
    "-"@ + (digits2(d) + from_hour(h, mi, s))
}

spec fn from_hour(h: int, mi: int, s: int) -> Seq<char> {
    "T"@ + (digits2(h) + from_minute(mi, s))
}

spec fn from_minute(mi: int, s: int) -> Seq<char> {
    ":"@ + (digits2(mi) + from_second(s))
}

spec fn from_second(s: int) -> Seq<char> {
    ":"@ + (digits2(s) + "Z"@)
}

proof fn lemma_instant_parts(date: (int, int, int), h: int, m: int, s: int)
    requires
        0 <= date.0 < 10000,
        1 <= date.1 <= 12,
        1 <= date.2 <= 31,
        0 <= h < 24,
        0 <= m < 60,
        0 <= s < 60,
    ensures
        instant_text(date, h, m, s) == digits4(date.0) + from_month(date.1, date.2, h, m, s),
{
    lemma_digits4(date.0);
    lemma_digits2(date.1);
    lemma_digits2(date.2);
    lemma_digits2(h);
    lemma_digits2(m);
    lemma_digits2(s);
    let y = digits4(date.0);
    let to_month = y + "-"@ + digits2(date.1);
    let to_day = to_month + "-"@ + digits2(date.2);
    let to_hour = to_day + "T"@ + digits2(h);
    let to_minute = to_hour + ":"@ + digits2(m);
    lemma_regroup(to_minute, ":"@, digits2(s), "Z"@);
    lemma_regroup(to_hour, ":"@, digits2(m), from_second(s));
    lemma_regroup(to_day, "T"@, digits2(h), from_minute(m, s));
    lemma_regroup(to_month, "-"@, digits2(date.2), from_hour(h, m, s));
    lemma_regroup(y, "-"@, digits2(date.1), from_day(date.2, h, m, s));
}

proof fn lemma_regroup(a: Seq<char>, b: Seq<char>, c: Seq<char>, d: Seq<char>)
    ensures
        a + b + c + d == a + (b + (c + d)),
{
    assert(a + b + c + d =~= a + (b + (c + d)));
}

/// Field by field, an earlier value decides the order, and an equal one leaves it to the
/// rest.
proof fn lemma_field(sep: Seq<char>, a: int, b: int, x: Seq<char>, y: Seq<char>)
    requires
        0 <= a < 100,
        0 <= b < 100,
        a < b || (a == b && text::text_lt(x, y)),
    ensures
        text::text_lt(sep + (digits2(a) + x), sep + (digits2(b) + y)),
{
    lemma_lt_prefix(sep, digits2(a) + x, digits2(b) + y);
    if a < b {
        lemma_digits2_order(a, b);
        lemma_lt_decided(digits2(a), digits2(b), x, y);
    } else {
        lemma_lt_prefix(digits2(a), x, y);
    }
}

proof fn lemma_time_order(h1: int, m1: int, s1: int, h2: int, m2: int, s2: int)
    requires
        0 <= h1 < 24,
        0 <= m1 < 60,
        0 <= s1 < 60,
        0 <= h2 < 24,
        0 <= m2 < 60,
        0 <= s2 < 60,
        h1 * 3600 + m1 * 60 + s1 < h2 * 3600 + m2 * 60 + s2,
    ensures
        text::text_lt(from_hour(h1, m1, s1), from_hour(h2, m2, s2)),
{
    if h1 == h2 {
        if m1 == m2 {
            lemma_field(":"@, s1, s2, "Z"@, "Z"@);
        }
        lemma_field(":"@, m1, m2, from_second(s1), from_second(s2));
    }
    lemma_field("T"@, h1, h2, from_minute(m1, s1), from_minute(m2, s2));
}

/// Every day number from 1970 on is that of a date.
proof fn lemma_civil_exists(days: int)
    requires
        0 <= days,
    ensures
        ({
            let c = civil(days);
            valid_date(c.0, c.1, c.2) && day_number(c.0, c.1, c.2) == days
        }),
{
    let z = days + 719468;
    let era = z / 146097;
    let doe = z % 146097;
    let century = if doe / 36524 >= 4 {
        3
    } else {
        doe / 36524
    };
    let in_century = doe - century * 36524;
    let cycle = in_century / 1461;
    let in_cycle = in_century % 1461;
    let year = if in_cycle / 365 >= 4 {
        3
    } else {
        in_cycle / 365
    };
    let doy = in_cycle - year * 365;
    lemma_parts(doe, century, in_century, cycle, in_cycle, year);
    lemma_leap_year(era, century, cycle, year);
    lemma_before_march_year(era, century, cycle, year);
    let my = 400 * era + 100 * century + 4 * cycle + year;
    lemma_march_date(my, doy);
    let mp = (5 * doy + 2) / 153;
    let d = doy - (153 * mp + 2) / 5 + 1;
    let mo = if mp < 10 {
        mp + 3
    } else {
        mp - 9
    };
    let y = if mo <= 2 {
        my + 1
    } else {
        my
    };
    assert(day_number(y, mo, d) == days);
    lemma_civil(y, mo, d);
}

/// Until the end of the year 9999 instants are in the same order as their texts.
pub proof fn unix_texts_are_in_order(a: int, b: int)
    requires
        0 <= a < b < 253402300800,
    ensures
        text::text_lt(unix_text(a), unix_text(b)),
{
    let (p, q) = (civil(a / 86400), civil(b / 86400));
    lemma_dates_in_order(a / 86400, b / 86400);
    let (h1, m1, s1) = ((a / 3600) % 24, (a / 60) % 60, a % 60);
    let (h2, m2, s2) = ((b / 3600) % 24, (b / 60) % 60, b % 60);
    lemma_time_of_day(a);
    lemma_time_of_day(b);
    assert(a / 86400 == b / 86400 ==> h1 * 3600 + m1 * 60 + s1 < h2 * 3600 + m2 * 60 + s2);
    lemma_instants_in_order(p, h1, m1, s1, q, h2, m2, s2);
}

proof fn lemma_instants_in_order(
    p: (int, int, int),
    h1: int,
    m1: int,
    s1: int,
    q: (int, int, int),
    h2: int,
    m2: int,
    s2: int,
)
    requires
        0 <= p.0 < 10000 && 1 <= p.1 <= 12 && 1 <= p.2 <= 31,
        0 <= q.0 < 10000 && 1 <= q.1 <= 12 && 1 <= q.2 <= 31,
        0 <= h1 < 24 && 0 <= m1 < 60 && 0 <= s1 < 60,
        0 <= h2 < 24 && 0 <= m2 < 60 && 0 <= s2 < 60,
        date_before(p, q) || (p == q && h1 * 3600 + m1 * 60 + s1 < h2 * 3600 + m2 * 60 + s2),
    ensures
        text::text_lt(instant_text(p, h1, m1, s1), instant_text(q, h2, m2, s2)),
{
    lemma_instant_parts(p, h1, m1, s1);
    lemma_instant_parts(q, h2, m2, s2);
    let (x, y) = (from_hour(h1, m1, s1), from_hour(h2, m2, s2));
    if p == q {
        lemma_time_order(h1, m1, s1, h2, m2, s2);
    }
    lemma_date_texts_in_order(p, q, x, y);
}

/// The time of day, and the day, of an instant.
proof fn lemma_time_of_day(t: int)
    requires
        0 <= t,
    ensures
        t == (t / 86400) * 86400 + ((t / 3600) % 24) * 3600 + ((t / 60) % 60) * 60 + t % 60,
{
    let m = t / 60;
    assert(t == m * 60 + t % 60);
    let h = t / 3600;
    assert(h == m / 60);
    assert(m == h * 60 + m % 60);
    assert(t / 86400 == h / 24);
    assert(h == (h / 24) * 24 + h % 24);
}

proof fn lemma_dates_in_order(a: int, b: int)
    requires
        0 <= a <= b < 2932897,
    ensures
        ({
            let (p, q) = (civil(a), civil(b));
            &&& 0 <= p.0 < 10000 && 1 <= p.1 <= 12 && 1 <= p.2 <= 31
            &&& 0 <= q.0 < 10000 && 1 <= q.1 <= 12 && 1 <= q.2 <= 31
            &&& p == q || date_before(p, q)
            &&& p == q ==> a == b
        }),
{
    let (p, q) = (civil(a), civil(b));
    lemma_civil_exists(a);
    lemma_civil_exists(b);
    if date_before(q, p) {
        day_numbers_are_in_order(q, p);
    }
    lemma_months(9999);
    if q.0 >= 10000 {
        day_numbers_are_in_order((9999, 12, 31), q);
    }
    if p.0 >= 10000 {
        day_numbers_are_in_order((9999, 12, 31), p);
    }
}

proof fn lemma_date_texts_in_order(
    p: (int, int, int),
    q: (int, int, int),
    x: Seq<char>,
    y: Seq<char>,
)
    requires
        0 <= p.0 < 10000 && 1 <= p.1 <= 12 && 1 <= p.2 <= 31,
        0 <= q.0 < 10000 && 1 <= q.1 <= 12 && 1 <= q.2 <= 31,
        date_before(p, q) || (p == q && text::text_lt(x, y)),
    ensures
        text::text_lt(
            digits4(p.0) + ("-"@ + (digits2(p.1) + ("-"@ + (digits2(p.2) + x)))),
            digits4(q.0) + ("-"@ + (digits2(q.1) + ("-"@ + (digits2(q.2) + y)))),
        ),
{
    let day1 = "-"@ + (digits2(p.2) + x);
    let day2 = "-"@ + (digits2(q.2) + y);
    let month1 = "-"@ + (digits2(p.1) + day1);
    let month2 = "-"@ + (digits2(q.1) + day2);
    if p.0 == q.0 {
        if p.1 == q.1 {
            lemma_field("-"@, p.2, q.2, x, y);
        }
        lemma_field("-"@, p.1, q.1, day1, day2);
        lemma_lt_prefix(digits4(p.0), month1, month2);
    } else {
        lemma_digits4_order(p.0, q.0);
        lemma_lt_decided(digits4(p.0), digits4(q.0), month1, month2);
    }
}

/// Whether the two digits of a number up to `hi` stand at `i`.
pub open spec fn two_digits_at(u: Seq<char>, i: int, hi: int) -> bool {
    &&& text::ascii_digit(u[i]) && text::ascii_digit(u[i + 1])
    &&& 10 * text::digit_value(u[i]) + text::digit_value(u[i + 1]) <= hi
}

/// Whether `u` is `YYYY-MM-DDTHH:MM:SSZ` with fields in their ranges.
pub open spec fn timestamp_fields(u: Seq<char>) -> bool {
    &&& u.len() == 20
    &&& text::ascii_digit(u[0]) && text::ascii_digit(u[1])
    &&& text::ascii_digit(u[2]) && text::ascii_digit(u[3])
    &&& two_digits_at(u, 5, 12) && two_digits_at(u, 8, 31)
    &&& two_digits_at(u, 11, 23) && two_digits_at(u, 14, 59) && two_digits_at(u, 17, 59)
    &&& u[4] == '-' && u[7] == '-' && u[10] == 'T'
    &&& u[13] == ':' && u[16] == ':' && u[19] == 'Z'
    &&& 1 <= 10 * text::digit_value(u[5]) + text::digit_value(u[6])
    &&& 1 <= 10 * text::digit_value(u[8]) + text::digit_value(u[9])
}

/// The fields and the separators of an instant's text, until the end of the year 9999.
pub proof fn unix_text_fields(t: int)
    requires
        0 <= t < 253402300800,
    ensures
        timestamp_fields(unix_text(t)),
{
    let d = civil(t / 86400);
    let (h, m, s) = ((t / 3600) % 24, (t / 60) % 60, t % 60);
    lemma_dates_in_order(t / 86400, t / 86400);
    lemma_instant_fields(d, h, m, s);
}

/// The digits of a number below 100, and their value.
proof fn lemma_digits2_value(n: int)
    requires
        0 <= n < 100,
    ensures
        text::decimal_padded(n as nat, 2) == digits2(n),
        digits2(n).len() == 2,
        text::ascii_digit(digits2(n)[0]) && text::ascii_digit(digits2(n)[1]),
        10 * text::digit_value(digits2(n)[0]) + text::digit_value(digits2(n)[1]) == n,
{
    lemma_digits2(n);
}

/// A text of seven parts, by its positions.
proof fn lemma_parts_at(
    y: Seq<char>,
    mo: Seq<char>,
    d: Seq<char>,
    h: Seq<char>,
    mi: Seq<char>,
    s: Seq<char>,
)
    requires
        y.len() == 4 && mo.len() == 2 && d.len() == 2 && h.len() == 2 && mi.len() == 2 && s.len() == 2,
    ensures
        ({
            let u = y + "-"@ + mo + "-"@ + d + "T"@ + h + ":"@ + mi + ":"@ + s + "Z"@;
            &&& u.len() == 20
            &&& u[0] == y[0] && u[1] == y[1] && u[2] == y[2] && u[3] == y[3]
            &&& u[5] == mo[0] && u[6] == mo[1] && u[8] == d[0] && u[9] == d[1]
            &&& u[11] == h[0] && u[12] == h[1] && u[14] == mi[0] && u[15] == mi[1]
            &&& u[17] == s[0] && u[18] == s[1]
            &&& u[4] == '-' && u[7] == '-' && u[10] == 'T'
            &&& u[13] == ':' && u[16] == ':' && u[19] == 'Z'
        }),
{
    reveal_strlit("-");
    reveal_strlit("T");
    reveal_strlit(":");
    reveal_strlit("Z");
}

proof fn lemma_instant_fields(d: (int, int, int), h: int, m: int, s: int)
    requires
        0 <= d.0 < 10000 && 1 <= d.1 <= 12 && 1 <= d.2 <= 31,
        0 <= h < 24 && 0 <= m < 60 && 0 <= s < 60,
    ensures
        timestamp_fields(instant_text(d, h, m, s)),
{
    lemma_digits4(d.0);
    lemma_digits2_value(d.0 / 100);
    lemma_digits2_value(d.0 % 100);
    lemma_digits2_value(d.1);
    lemma_digits2_value(d.2);
    lemma_digits2_value(h);
    lemma_digits2_value(m);
    lemma_digits2_value(s);
    lemma_parts_at(digits4(d.0), digits2(d.1), digits2(d.2), digits2(h), digits2(m), digits2(s));
}

/// The number that the two digits at `i` spell.
pub open spec fn two_digits(u: Seq<char>, i: int) -> int {
    10 * text::digit_value(u[i]) + text::digit_value(u[i + 1])
}

/// Whether the digits of a text are those of the date and time.
pub open spec fn spells(u: Seq<char>, d: (int, int, int), h: int, m: int, s: int) -> bool {
    &&& two_digits(u, 0) == d.0 / 100 && two_digits(u, 2) == d.0 % 100
    &&& two_digits(u, 5) == d.1 && two_digits(u, 8) == d.2
    &&& two_digits(u, 11) == h && two_digits(u, 14) == m && two_digits(u, 17) == s
}

/// The digits of an instant's text are those of its date and time.
pub(crate) proof fn lemma_instant_digits(d: (int, int, int), h: int, m: int, s: int)
    requires
        0 <= d.0 < 10000 && 1 <= d.1 <= 12 && 1 <= d.2 <= 31,
        0 <= h < 24 && 0 <= m < 60 && 0 <= s < 60,
    ensures
        ({
            let u = instant_text(d, h, m, s);
            &&& timestamp_fields(u)
            &&& spells(u, d, h, m, s)
        }),
{
    lemma_instant_fields(d, h, m, s);
    lemma_digits4(d.0);
    lemma_digits2_value(d.0 / 100);
    lemma_digits2_value(d.0 % 100);
    lemma_digits2_value(d.1);
    lemma_digits2_value(d.2);
    lemma_digits2_value(h);
    lemma_digits2_value(m);
    lemma_digits2_value(s);
    lemma_parts_at(digits4(d.0), digits2(d.1), digits2(d.2), digits2(h), digits2(m), digits2(s));
    assert(digits4(d.0)[0] == digits2(d.0 / 100)[0] && digits4(d.0)[1] == digits2(d.0 / 100)[1]);
    assert(digits4(d.0)[2] == digits2(d.0 % 100)[0] && digits4(d.0)[3] == digits2(d.0 % 100)[1]);
}

} // verus!
