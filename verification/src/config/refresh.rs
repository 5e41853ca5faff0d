//! Refresh intervals.

use crate::error::{Error, ErrorView};
use crate::text;
use vstd::prelude::*;
use vstd::slice::slice_subrange;

verus! {

/// A number of units in seconds, within 64 bits.
pub open spec fn in_seconds(n: Option<u64>, unit: int) -> Option<u64> {
    match n {
        Some(n) => if n * unit <= u64::MAX {
            Some((n * unit) as u64)
        } else {
            None
        },
        None => None,
    }
}

/// The seconds that an interval names: a number of hours, minutes or seconds.
pub open spec fn interval_secs(s: Seq<char>) -> Option<u64> {
    if s.len() > 0 && s.last() == 'h' {
        in_seconds(text::parsed_u64(s.drop_last()), 3600)
    } else if s.len() > 0 && s.last() == 'm' {
        in_seconds(text::parsed_u64(s.drop_last()), 60)
    } else if s.len() > 0 && s.last() == 's' {
        text::parsed_u64(s.drop_last())
    } else {
        text::parsed_u64(s)
    }
}

/// A number of units in seconds, within 64 bits.
pub fn to_seconds(n: Option<u64>, unit: u64) -> (r: Option<u64>)
    ensures
        r == in_seconds(n, unit as int),
{
    match n {
        Some(n) => n.checked_mul(unit),
        None => None,
    }
}

/// Parses a refresh interval: `24h`, `30m`, `3600s` or a plain number of seconds. White space
/// around it is ignored, and nothing at all is no interval.
pub fn validate_refresh_interval(s: &str) -> (r: Result<Option<u64>, Error>)
    ensures
        ({
            let t = text::trimmed(s@);
            if t.len() == 0 {
                r == Ok::<Option<u64>, Error>(None)
            } else {
                match interval_secs(t) {
                    Some(n) => r == Ok::<Option<u64>, Error>(Some(n)),
                    None => r is Err && r->Err_0@ == (ErrorView::InvalidRequest {
                        message: "invalid refresh interval '"@ + t
                            + "': expected a duration like '24h', '30m', or '3600s'"@,
                    }),
                }
            }
        }),
{
    let chars = text::chars_of(s);
    let t = text::trim_chars(chars.as_slice());
    if t.len() == 0 {
        return Ok(None);
    }
    let head = slice_subrange(t, 0, t.len() - 1);
    assert(head@ =~= t@.drop_last());
    let last = t[t.len() - 1];
    let secs = if last == 'h' {
        to_seconds(text::parse_u64(head), 3600)
    } else if last == 'm' {
        to_seconds(text::parse_u64(head), 60)
    } else if last == 's' {
        text::parse_u64(head)
    } else {
        text::parse_u64(t)
    };
    match secs {
        Some(n) => Ok(Some(n)),
        None => {
            let shown = text::string_of(t);
            Err(
                Error::invalid_request(
                    text::concat3(
                        "invalid refresh interval '",
                        shown.as_str(),
                        "': expected a duration like '24h', '30m', or '3600s'",
                    ),
                ),
            )
        },
    }
}

} // verus!
