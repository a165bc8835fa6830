//! Readings of the system clock.
use vstd::prelude::*;

verus! {

#[verifier::external_type_specification]
#[verifier::external_body]
pub struct ExSystemTime(std::time::SystemTime);

#[verifier::external_type_specification]
#[verifier::external_body]
pub struct ExSystemTimeError(std::time::SystemTimeError);

/// `SystemTime::now`: the current time of the system clock; nothing is promised of it.
#[verifier::external_body]
fn system_now() -> (r: std::time::SystemTime) {
    std::time::SystemTime::now()
}

/// `SystemTime::duration_since` with `UNIX_EPOCH`: how long after 1970 `t` is, or an
/// error when `t` is earlier; nothing more is promised.
#[verifier::external_body]
fn since_unix_epoch(t: &std::time::SystemTime) -> (r: Result<core::time::Duration, std::time::SystemTimeError>) {
    t.duration_since(std::time::UNIX_EPOCH)
}

/// `Duration::as_millis`: the whole milliseconds of `d`; nothing is promised of the value.
#[verifier::external_body]
fn duration_millis(d: &core::time::Duration) -> (r: u128) {
    d.as_millis()
}

/// `Duration::subsec_nanos`: the nanoseconds past the whole seconds of `d`, which std
/// documents to be below one billion.
#[verifier::external_body]
fn duration_subsec_nanos(d: &core::time::Duration) -> (r: u32)
    ensures
        r < 1000000000,
{
    d.subsec_nanos()
}

/// Milliseconds since 1970 by the system clock; 0 when the clock is before 1970, and the
/// largest `u64` for a count that does not fit.
pub fn clock_millis() -> (r: u64) {
    let now = system_now();
    match since_unix_epoch(&now) {
        Ok(d) => {
            let m = duration_millis(&d);
            if m > 18446744073709551615u128 {
                18446744073709551615u64
            } else {
                m as u64
            }
        },
        Err(_) => 0,
    }
}

/// Nanoseconds past the current second of the system clock; 0 when the clock is before
/// 1970.
pub fn clock_subsec_nanos() -> (r: u32)
    ensures
        r < 1000000000,
{
    let now = system_now();
    match since_unix_epoch(&now) {
        Ok(d) => duration_subsec_nanos(&d),
        Err(_) => 0,
    }
}

} // verus!
