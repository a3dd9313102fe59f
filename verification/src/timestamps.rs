//! Timestamps as whole seconds since the Unix epoch, and ages truncated to
//! whole minutes.
//!
//! The history store hands timestamps over as RFC 3339 text; chrono turns
//! them into epoch seconds behind a trusted wrapper. Every chrono date lies
//! in a bounded range of years, so every timestamp that comes out of the
//! wrappers is bounded, which keeps the age arithmetic free of overflow.

use vstd::prelude::*;

verus! {

/// Strict bound on every epoch-second value chrono can produce: its dates
/// span the years -262143 to 262142, below 10^13 seconds either way.
pub const TS_BOUND: i64 = 10_000_000_000_000;

/// Largest whole-minute age derivable from two bounded timestamps:
/// `(2 * TS_BOUND - 2) / 60`, rounded down.
pub const MAX_AGE_MINUTES: i64 = 333_333_333_333;

/// Whole minutes in `secs` seconds, truncated toward zero (fractional
/// minutes are discarded, for a negative span as for a positive one).
pub open spec fn minutes_of(secs: int) -> int {
    if secs >= 0 {
        secs / 60
    } else {
        -((-secs) / 60)
    }
}

/// What chrono's RFC 3339 parser yields for a string: the instant's epoch
/// seconds, or nothing when the string is not a valid RFC 3339 date-time.
/// The parse depends on the string alone.
pub uninterp spec fn rfc3339_secs_of(s: Seq<char>) -> Option<i64>;

/// Relies on chrono's `DateTime::parse_from_rfc3339`, whose result depends
/// on the string alone, converted to epoch seconds by
/// `DateTime::timestamp`; chrono dates span the years -262143 to 262142,
/// so the seconds are bounded.
#[verifier::external_body]
pub(crate) fn parse_rfc3339_secs(s: &str) -> (r: Option<i64>)
    ensures
        r == rfc3339_secs_of(s@),
        r matches Some(t) ==> -TS_BOUND < t < TS_BOUND,
{
    match chrono::DateTime::parse_from_rfc3339(s) {
        Ok(dt) => Some(dt.with_timezone(&chrono::Utc).timestamp()),
        Err(_) => None,
    }
}

} // verus!
