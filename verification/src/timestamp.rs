//! Timestamp handling.  A timestamp is a UTC instant counted in
//! microseconds since the Unix epoch; the textual form accepted at
//! ingestion is RFC 3339.

use vstd::prelude::*;

verus! {

/// The instant, in microseconds since the Unix epoch, that a text denotes
/// under RFC 3339, or `None` when the text is not a valid RFC 3339
/// date-and-time.  The value depends on the characters alone.
pub uninterp spec fn rfc3339_micros(s: Seq<char>) -> Option<i64>;

/// Relies on chrono's `DateTime::parse_from_rfc3339` and
/// `timestamp_micros`: parsing accepts the valid RFC 3339 date-and-time
/// strings, and the instant returned depends on the characters alone.
/// RFC 3339 years have four digits, so the microsecond count never
/// overflows an `i64`.
#[verifier::external_body]
pub(crate) fn parse_rfc3339_micros(s: &str) -> (r: Option<i64>)
    ensures
        r == rfc3339_micros(s@),
{
    match chrono::DateTime::parse_from_rfc3339(s) {
        Ok(dt) => Some(dt.timestamp_micros()),
        Err(_) => None,
    }
}

} // verus!
