//! Timestamp handling: RFC 3339 strings are the record format for
//! last-modified and last-synced times, and conflict resolution compares the
//! absolute instants they denote.

use vstd::prelude::*;

verus! {

/// The absolute instant, in whole microseconds since the Unix epoch, denoted
/// by an RFC 3339 date-and-time string, or `None` where the string does not
/// parse. The result is a function of the characters alone.
pub uninterp spec fn rfc3339_micros(s: Seq<char>) -> Option<i64>;

/// Relies on chrono's `DateTime::parse_from_rfc3339` (a pure function of the
/// string) and `DateTime::timestamp_micros` (the parsed value's count of
/// non-leap microseconds since the Unix epoch, which fits an `i64` for every
/// date chrono can represent).
#[verifier::external_body]
pub(crate) fn parse_timestamp(ts: &str) -> (r: Option<i64>)
    ensures
        r == rfc3339_micros(ts@),
{
    chrono::DateTime::parse_from_rfc3339(ts).ok().map(|dt| dt.timestamp_micros())
}

/// Relies on chrono's `Utc::now` and `DateTime::to_rfc3339` for the current
/// instant in RFC 3339 form. Nothing is assumed of the clock's value.
#[verifier::external_body]
pub(crate) fn now_rfc3339() -> String {
    chrono::Utc::now().to_rfc3339()
}

} // verus!
