//! Wall-clock timestamps for generated records.

use vstd::prelude::*;

verus! {

#[verifier::external_type_specification]
#[verifier::external_body]
pub struct ExSystemTime(std::time::SystemTime);

#[verifier::external_type_specification]
#[verifier::external_body]
pub struct ExSystemTimeError(std::time::SystemTimeError);

/// Relies on `SystemTime::now`, which reads the system clock: nothing is known of the result.
pub assume_specification[ std::time::SystemTime::now ]() -> std::time::SystemTime;

/// Relies on `SystemTime::duration_since`, which fails when `earlier` is later than the
/// receiver: nothing is known of which happens.
pub assume_specification[ std::time::SystemTime::duration_since ](
    t: &std::time::SystemTime,
    earlier: std::time::SystemTime,
) -> Result<core::time::Duration, std::time::SystemTimeError>;

/// Relies on `Duration::as_secs`, the whole seconds of a duration.
pub assume_specification[ core::time::Duration::as_secs ](d: &core::time::Duration) -> u64;

/// Relies on `Duration::subsec_nanos`, the fractional part of a duration in nanoseconds,
/// which std documents as always less than one billion.
pub assume_specification[ core::time::Duration::subsec_nanos ](d: &core::time::Duration) -> (r: u32)
    ensures
        r < 1_000_000_000,
;

/// Relies on `SystemTime::UNIX_EPOCH`, the instant 1970-01-01 00:00:00 UTC.
#[verifier::external_body]
fn unix_epoch() -> std::time::SystemTime {
    std::time::SystemTime::UNIX_EPOCH
}

/// The whole milliseconds in `secs` seconds and `nanos` nanoseconds.
pub fn millis_of(secs: u64, nanos: u32) -> (r: u128)
    ensures
        r == secs * 1000 + nanos / 1_000_000,
{
    (secs as u128) * 1000 + (nanos / 1_000_000) as u128
}

/// Milliseconds since 1970-01-01 00:00:00 UTC by the system clock; `None` when the clock
/// reads earlier than that.
pub fn get_unix_timestamp() -> (r: Option<u128>)
    ensures
        r is Some ==> r->0 <= u64::MAX as u128 * 1000 + 999,
{
    match std::time::SystemTime::now().duration_since(unix_epoch()) {
        Ok(d) => Some(millis_of(d.as_secs(), d.subsec_nanos())),
        Err(_) => None,
    }
}

} // verus!
