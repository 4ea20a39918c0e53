//! Timestamps and calendar days.
//!
//! Activity records carry their moment as an RFC 3339 text. The calendar
//! day a record belongs to is the day of that moment shifted by the
//! reader's time-zone offset: day number `floor((seconds + offset) / 86400)`
//! counted from 1970-01-01.

use vstd::prelude::*;
use vstd::arithmetic::div_mod::lemma_div_is_ordered;

verus! {

/// The instant an RFC 3339 text names, in non-leap seconds since
/// 1970-01-01T00:00:00Z, or `None` where the text is not a valid RFC 3339
/// date-time. A function of the text alone.
pub uninterp spec fn rfc3339_timestamp(s: Seq<char>) -> Option<i64>;

/// Relies on chrono's `DateTime::parse_from_rfc3339` and
/// `DateTime::timestamp`: whether the text parses, and the instant it
/// names, depend on the text alone.
#[verifier::external_body]
pub fn parse_rfc3339_timestamp(s: &str) -> (r: Option<i64>)
    ensures
        r == rfc3339_timestamp(s@),
{
    match chrono::DateTime::parse_from_rfc3339(s) {
        Ok(dt) => Some(dt.timestamp()),
        Err(_) => None,
    }
}

/// Relies on chrono's `Local` time zone: `TimeZone::offset_from_utc_datetime`
/// returns a `FixedOffset`, whose seconds are strictly between -86400 and
/// 86400. The value depends on the machine's environment, so nothing more is
/// stated of it.
#[verifier::external_body]
pub fn local_offset_seconds(epoch_seconds: i64) -> (r: i32)
    ensures
        -86400 < r < 86400,
{
    let utc = chrono::DateTime::from_timestamp(epoch_seconds, 0)
        .unwrap_or(chrono::DateTime::UNIX_EPOCH)
        .naive_utc();
    chrono::TimeZone::offset_from_utc_datetime(&chrono::Local, &utc).local_minus_utc()
}

/// The calendar day (counted from 1970-01-01) of an instant, read in a zone
/// `offset` seconds east of UTC.
pub open spec fn local_day(epoch_seconds: int, offset: int) -> int {
    (epoch_seconds + offset) / 86400
}

/// An instant's day never decreases as the instant grows.
pub proof fn lemma_local_day_monotone(a: int, b: int, offset: int)
    requires
        a <= b,
    ensures
        local_day(a, offset) <= local_day(b, offset),
{
    lemma_div_is_ordered(a + offset, b + offset, 86400);
}

/// Computes [`local_day`] of a timestamp.
pub fn day_of_timestamp(epoch_seconds: i64, offset: i32) -> (d: i64)
    ensures
        d == local_day(epoch_seconds as int, offset as int),
{
    let total: i128 = (epoch_seconds as i128) + (offset as i128);
    proof {
        lemma_div_is_ordered(i64::MIN + i32::MIN, total as int, 86400);
        lemma_div_is_ordered(total as int, i64::MAX + i32::MAX, 86400);
    }
    let d128 = match total.checked_div_euclid(86400) {
        Some(q) => q,
        None => {
            proof {
                assert(false);
            }
            0
        },
    };
    d128 as i64
}

} // verus!
