//! Reading the server's `Date` header: an RFC 2822 date is turned into
//! milliseconds since the epoch so that observations can be ordered.

use vstd::prelude::*;

verus! {

/// What an RFC 2822 date string denotes: the instant in milliseconds
/// since the epoch, or nothing when the string is not a valid RFC 2822
/// date.  The denotation is a function of the characters alone — the
/// time-zone offset is part of the text.
pub uninterp spec fn rfc2822_millis(s: Seq<char>) -> Option<i64>;

/// Relies on chrono's `DateTime::parse_from_rfc2822`, which parses the
/// date deterministically from the string (including its offset), and
/// `DateTime::timestamp_millis`, which renders the parsed instant as
/// milliseconds since the epoch.
#[verifier::external_body]
pub(crate) fn parse_rfc2822_millis(s: &str) -> (r: Option<i64>)
    ensures
        r == rfc2822_millis(s@),
{
    match chrono::DateTime::parse_from_rfc2822(s) {
        Ok(dt) => Some(dt.timestamp_millis()),
        Err(_) => None,
    }
}

} // verus!
