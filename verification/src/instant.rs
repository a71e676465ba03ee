//! Construction of the final instant from plain calendar fields.
//!
//! Calendar arithmetic is not done here: the `chrono` crate builds the instant.
//! This module gives the two `chrono` constructors that are called a contract,
//! and states in [`is_civil`] which field combinations `chrono` accepts.

use chrono::{FixedOffset, NaiveDateTime, TimeZone};
use vstd::prelude::*;

verus! {

/// `chrono::FixedOffset`, carried through as an opaque value.
#[verifier::external_type_specification]
#[verifier::external_body]
pub struct ExFixedOffset(FixedOffset);

/// `chrono::NaiveDateTime`, carried through as an opaque value.
#[verifier::external_type_specification]
#[verifier::external_body]
pub struct ExNaiveDateTime(NaiveDateTime);

/// An instant at a fixed offset from UTC, in the two parts of which `chrono`
/// makes up a `DateTime<FixedOffset>`: `DateTime::from_naive_utc_and_offset`
/// puts them together again.
#[derive(Clone, Copy, Debug, PartialEq, Eq)]
pub struct Instant {
    /// Date and time of the instant in UTC.
    pub utc: NaiveDateTime,
    /// The offset at which the instant was given.
    pub offset: FixedOffset,
}

/// The value `chrono::FixedOffset::east_opt` returns for `secs`.
pub uninterp spec fn east_offset(secs: int) -> Option<FixedOffset>;

/// The value `TimeZone::with_ymd_and_hms(..).single()` returns on the fixed
/// offset `tz` for the given local calendar fields.
pub uninterp spec fn local_instant(
    tz: FixedOffset,
    year: int,
    month: int,
    day: int,
    hour: int,
    minute: int,
    second: int,
) -> Option<Instant>;

/// Smallest offset, in seconds, that is out of range on the positive side:
/// one full day.
pub const DAY_SECONDS: i32 = 86_400;

/// Whether `year` has a 29th of February in the proleptic Gregorian calendar
/// (year 0 is 1 BCE).
pub open spec fn is_leap_year(year: int) -> bool {
    year % 4 == 0 && (year % 100 != 0 || year % 400 == 0)
}

/// Number of days of `month` in `year`, for `month` in `1..=12`.
pub open spec fn days_in_month(year: int, month: int) -> int {
    if month == 2 {
        if is_leap_year(year) {
            29
        } else {
            28
        }
    } else if month == 4 || month == 6 || month == 9 || month == 11 {
        30
    } else {
        31
    }
}

/// Whether the six fields name an existing calendar day and a time of day
/// without leap second.
pub open spec fn is_civil(
    year: int,
    month: int,
    day: int,
    hour: int,
    minute: int,
    second: int,
) -> bool {
    &&& 1 <= month <= 12
    &&& 1 <= day <= days_in_month(year, month)
    &&& 0 <= hour < 24
    &&& 0 <= minute < 60
    &&& 0 <= second < 60
}

/// Whether `year` lies strictly inside the range of years that `chrono` can
/// represent, so that shifting a local time of that year by less than a day
/// cannot leave the range.
pub open spec fn is_inner_year(year: int) -> bool {
    -262_143 < year < 262_142
}

/// Calls `chrono::FixedOffset::east_opt`. The offset exists exactly when
/// `secs` lies strictly between minus and plus one day.
#[verifier::external_body]
fn fixed_offset_east(secs: i32) -> (r: Option<FixedOffset>)
    ensures
        r == east_offset(secs as int),
        r.is_some() <==> -DAY_SECONDS < secs < DAY_SECONDS,
{
    FixedOffset::east_opt(secs)
}

/// Calls `TimeZone::with_ymd_and_hms` on `tz` and keeps its single result,
/// taken apart by `DateTime::naive_utc` and `DateTime::offset`.
///
/// `chrono` returns no instant when the fields are not a calendar day and a
/// time of day. For a fixed offset the mapping is never ambiguous, so for
/// valid fields an instant comes back unless the shift to UTC leaves the
/// representable range, which cannot happen for an inner year. The instant
/// carries the offset it was built at.
#[verifier::external_body]
fn instant_in(
    tz: FixedOffset,
    year: i32,
    month: u32,
    day: u32,
    hour: u32,
    minute: u32,
    second: u32,
) -> (r: Option<Instant>)
    ensures
        r == local_instant(
            tz,
            year as int,
            month as int,
            day as int,
            hour as int,
            minute as int,
            second as int,
        ),
        r matches Some(at) ==> at.offset == tz,
        r.is_some() ==> is_civil(
            year as int,
            month as int,
            day as int,
            hour as int,
            minute as int,
            second as int,
        ),
        is_inner_year(year as int) && is_civil(
            year as int,
            month as int,
            day as int,
            hour as int,
            minute as int,
            second as int,
        ) ==> r.is_some(),
{
    tz.with_ymd_and_hms(year, month, day, hour, minute, second).single().map(
        |at| Instant { utc: at.naive_utc(), offset: *at.offset() },
    )
}

/// The instant that the fields name at `offset_secs` east of UTC, if
/// `chrono` can build both the offset and the instant.
pub open spec fn instant_of(
    offset_secs: int,
    year: int,
    month: int,
    day: int,
    hour: int,
    minute: int,
    second: int,
) -> Option<Instant> {
    match east_offset(offset_secs) {
        Some(tz) => local_instant(tz, year, month, day, hour, minute, second),
        None => None,
    }
}

/// Whether an instant exists for the fields at `offset_secs`: the offset is
/// shorter than a day and the fields are a calendar day and a time of day.
pub open spec fn is_representable(
    offset_secs: int,
    year: int,
    month: int,
    day: int,
    hour: int,
    minute: int,
    second: int,
) -> bool {
    &&& -DAY_SECONDS < offset_secs < DAY_SECONDS
    &&& is_civil(year, month, day, hour, minute, second)
}

/// Builds the instant for the given local fields at `offset_secs` east of UTC.
pub fn build_instant(
    offset_secs: i32,
    year: i32,
    month: u32,
    day: u32,
    hour: u32,
    minute: u32,
    second: u32,
) -> (r: Option<Instant>)
    ensures
        r == instant_of(
            offset_secs as int,
            year as int,
            month as int,
            day as int,
            hour as int,
            minute as int,
            second as int,
        ),
        r matches Some(at) ==> east_offset(offset_secs as int) == Some(at.offset),
        r.is_some() ==> is_representable(
            offset_secs as int,
            year as int,
            month as int,
            day as int,
            hour as int,
            minute as int,
            second as int,
        ),
        is_inner_year(year as int) && is_representable(
            offset_secs as int,
            year as int,
            month as int,
            day as int,
            hour as int,
            minute as int,
            second as int,
        ) ==> r.is_some(),
{
    match fixed_offset_east(offset_secs) {
        Some(tz) => instant_in(tz, year, month, day, hour, minute, second),
        None => None,
    }
}

} // verus!
