//! Instants as nanoseconds since 1970, and how they are shown.

use vstd::prelude::*;

verus! {

/// The first second of the calendar: the start of the year -262143.
pub const MIN_SECONDS: i64 = -8_334_601_228_800;

/// The last second of the calendar: the end of the year 262142.
pub const MAX_SECONDS: i64 = 8_210_266_876_799;

/// The nanoseconds of a second.
pub const NANOS_PER_SECOND: i128 = 1_000_000_000;

/// Whether a number of nanoseconds since 1970 lies in the calendar.
pub open spec fn is_instant(at: int) -> bool {
    MIN_SECONDS * NANOS_PER_SECOND <= at < (MAX_SECONDS + 1) * NANOS_PER_SECOND
}

/// The whole seconds of an instant.
pub open spec fn seconds_of(at: int) -> int {
    at / (NANOS_PER_SECOND as int)
}

/// The nanoseconds of an instant beyond its whole seconds.
pub open spec fn nanos_of(at: int) -> int {
    at % (NANOS_PER_SECOND as int)
}

/// The text that `DateTime::to_rfc3339` gives for an instant in UTC.
pub uninterp spec fn rfc3339_text(seconds: i64, nanos: u32) -> Seq<char>;

/// The date and time of an instant. `DateTime::from_timestamp` accepts every second of
/// the calendar with fewer than a billion nanoseconds, and what `to_rfc3339` makes of it
/// depends on these two numbers alone.
#[verifier::external_body]
fn rfc3339_of_parts(seconds: i64, nanos: u32) -> (text: String)
    requires
        MIN_SECONDS <= seconds <= MAX_SECONDS,
        nanos < 1_000_000_000,
    ensures
        text@ == rfc3339_text(seconds, nanos),
{
    match chrono::DateTime::from_timestamp(seconds, nanos) {
        Some(at) => at.to_rfc3339(),
        None => String::new(),
    }
}

/// The date and time of an instant.
pub open spec fn instant_text(at: int) -> Seq<char> {
    rfc3339_text(seconds_of(at) as i64, nanos_of(at) as u32)
}

/// Splits an instant into whole seconds and the nanoseconds beyond.
pub fn split_instant(at: i128) -> (parts: (i64, u32))
    requires
        is_instant(at as int),
    ensures
        parts.0 == seconds_of(at as int),
        parts.1 == nanos_of(at as int),
        MIN_SECONDS <= parts.0 <= MAX_SECONDS,
        parts.1 < 1_000_000_000,
        at == parts.0 * NANOS_PER_SECOND + parts.1,
{
    let since: u128 = (at + 8_334_601_228_800_000_000_000) as u128;
    let seconds: u128 = since / 1_000_000_000;
    let nanos: u128 = since % 1_000_000_000;
    ((seconds as i128 - 8_334_601_228_800) as i64, nanos as u32)
}

/// The date and time of an instant.
pub fn rfc3339(at: i128) -> (text: String)
    requires
        is_instant(at as int),
    ensures
        text@ == instant_text(at as int),
{
    let (seconds, nanos) = split_instant(at);
    rfc3339_of_parts(seconds, nanos)
}

/// The instant of seconds and nanoseconds, if it lies in the calendar.
pub fn instant_from_parts(seconds: i128, nanos: u32) -> (at: Option<i128>)
    requires
        nanos < 1_000_000_000,
    ensures
        at == if MIN_SECONDS <= seconds <= MAX_SECONDS {
            Some((seconds * NANOS_PER_SECOND + nanos) as i128)
        } else {
            None
        },
        at matches Some(at) ==> is_instant(at as int),
{
    if MIN_SECONDS as i128 <= seconds && seconds <= MAX_SECONDS as i128 {
        Some(seconds * NANOS_PER_SECOND + nanos as i128)
    } else {
        None
    }
}

} // verus!
