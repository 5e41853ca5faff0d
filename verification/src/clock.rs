//! The current time.

use crate::auth::token;
use crate::calendar;
use crate::dates;
use crate::text;
use chrono::{DateTime, SecondsFormat, Utc};
use vstd::prelude::*;

verus! {

/// Whether a text is one that chrono writes for an instant in UTC, with whole seconds and `Z`:
/// `YYYY-MM-DDTHH:MM:SSZ` in the years 0 to 9999, with a sign in front in all others.
pub open spec fn instant_shaped(s: Seq<char>) -> bool {
    dates::canonical_timestamp(s) || (s.len() > 20 && (s[0] == '+' || s[0] == '-'))
}

/// Wraps `chrono::Utc::now`, formatted by `to_rfc3339_opts` with whole seconds and `Z`. Which
/// instant it is depends on the clock; its text has the form that all of them have.
#[verifier::external_body]
fn utc_now_text() -> (r: String)
    ensures
        instant_shaped(r@),
{
    Utc::now().to_rfc3339_opts(SecondsFormat::Secs, true)
}

/// What chrono writes for the instant that many seconds after the start of 1970, in UTC;
/// nothing for an instant that it cannot represent.
pub uninterp spec fn utc_text(secs: i64) -> Option<Seq<char>>;

/// Wraps `chrono::DateTime::from_timestamp`, written by `to_rfc3339_opts` with whole seconds
/// and `Z`; it depends on the number alone. From 1970 to the end of the year 9999 every
/// instant is written as `YYYY-MM-DDTHH:MM:SSZ`; a later one, if it can be represented,
/// starts with a sign.
#[verifier::external_body]
pub(crate) fn utc_at(secs: i64) -> (r: Option<String>)
    ensures
        text::opt_view(r) == utc_text(secs),
        0 <= secs < 253402300800 ==> text::opt_view(r) == Some(calendar::unix_text(secs as int)),
        secs >= 253402300800 ==> (r matches Some(s) ==> s@.len() > 0 && s@[0] == '+'),
{
    DateTime::<Utc>::from_timestamp(secs, 0).map(|t| t.to_rfc3339_opts(SecondsFormat::Secs, true))
}

/// Formats seconds since 1970 in the canonical form. An instant that has no such form, after
/// the year 9999, counts as the start of 1970.
pub fn format_secs_rfc3339(secs: u64) -> (r: String)
    ensures
        r@ == (if secs < 253402300800 {
            calendar::unix_text(secs as int)
        } else {
            "1970-01-01T00:00:00Z"@
        }),
        dates::canonical_timestamp(r@),
{
    proof {
        reveal_strlit("1970-01-01T00:00:00Z");
        if secs < 253402300800 {
            dates::stored_instants_are_canonical(secs as int);
        }
    }
    if secs <= i64::MAX as u64 {
        match utc_at(secs as i64) {
            Some(s) => {
                if dates::is_canonical_timestamp(s.as_str()) {
                    assert(secs >= 253402300800 ==> !dates::fits_at(s@[0], 0));
                    return s;
                }
            },
            None => {},
        }
    }
    "1970-01-01T00:00:00Z".to_owned()
}

/// The current time as an RFC 3339 text in UTC, with whole seconds.
pub fn now_rfc3339() -> (r: String)
    ensures
        instant_shaped(r@),
{
    utc_now_text()
}

/// A moment: in seconds since 1970, which expiry is counted in, and as the text that rows
/// are stamped with.
#[derive(Debug, Clone, PartialEq, Eq)]
pub struct Moment {
    pub secs: i64,
    pub stamp: String,
}

impl Moment {
    /// Whether the stamp has the form of a written instant.
    pub open spec fn well_formed(&self) -> bool {
        instant_shaped(self.stamp@)
    }

    /// The current moment. The clock is read for the seconds and for the stamp.
    pub fn now() -> (r: Moment)
        ensures
            r.well_formed(),
    {
        Moment { secs: token::now_unix(), stamp: now_rfc3339() }
    }

    /// The text that expiry is compared with.
    pub open spec fn text(&self) -> Seq<char> {
        crate::calendar::unix_text(self.secs as int)
    }

    /// The text of the instant that many seconds later.
    pub open spec fn after(&self, delta: i64) -> Seq<char> {
        crate::calendar::unix_text(token::clamped_sum(self.secs, delta) as int)
    }
}

} // verus!
