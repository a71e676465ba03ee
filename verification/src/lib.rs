//! Lenient parsing of ISO-8601-like timestamps into instants at a fixed offset.
//!
//! A timestamp is read field by field: year, month, day, hour, minute,
//! second and offset from UTC. Reading stops without complaint at the first
//! field that is missing or malformed, and fields that were not reached keep
//! their defaults: the first of January 1970, midnight, UTC.

pub mod instant;
pub mod laws;
pub mod number;
pub mod state;
pub mod timezone;
pub mod values;

use crate::instant::{east_offset, Instant};
use crate::values::DateTimeValues;
use vstd::prelude::*;
use vstd::string::StringSliceAdditionalSpecFns;

verus! {

/// Reads `text` as a timestamp and builds the instant that it names.
///
/// The result is the instant of the fields that were read, and there is one
/// exactly when these fields are a calendar day, a time of day and an offset
/// of less than a day. The instant carries the offset that was read.
pub fn parse_datetime(text: &str) -> (r: Option<Instant>)
    ensures
        r == DateTimeValues::spec_from(text.spec_bytes()).spec_instant(),
        r.is_some() <==> DateTimeValues::spec_from(text.spec_bytes()).is_instant(),
        r matches Some(at) ==> east_offset(
            DateTimeValues::spec_from(text.spec_bytes()).timezone.total_seconds(),
        ) == Some(at.offset),
{
    let values = DateTimeValues::from(text);
    values.instant()
}

} // verus!
