//! Time as the debouncer counts it: whole nanoseconds since the debouncer was made.
//!
//! The rules of the debouncer compare and add points in time. They do so on plain numbers, so that
//! what they decide can be stated and proved; this module turns the standard library's durations
//! into such numbers and back.

use std::time::{Duration, Instant};
use vstd::prelude::*;

verus! {

/// The number of nanoseconds in one second.
pub const NANOS_PER_SEC: u128 = 1_000_000_000;

/// A point on the standard library's monotonic clock. Nothing inside it is known here.
#[verifier::external_type_specification]
#[verifier::external_body]
pub struct ExInstant(Instant);

/// The number of whole seconds in a duration, as `Duration::as_secs` gives it.
pub uninterp spec fn duration_secs(d: Duration) -> u64;

/// The fractional part of a duration in nanoseconds, as `Duration::subsec_nanos` gives it.
pub uninterp spec fn duration_subsec_nanos(d: Duration) -> u32;

/// `Duration::as_secs` returns the number of whole seconds in the duration.
pub assume_specification[ Duration::as_secs ](d: &Duration) -> (secs: u64)
    ensures
        secs == duration_secs(*d),
;

/// `Duration::subsec_nanos` returns the fractional part of the duration in nanoseconds, which is
/// always less than one second.
pub assume_specification[ Duration::subsec_nanos ](d: &Duration) -> (nanos: u32)
    ensures
        nanos == duration_subsec_nanos(*d),
        nanos < 1_000_000_000,
;

/// `Duration::new` makes the duration with the given whole seconds and fractional nanoseconds. It
/// carries excess nanoseconds over into the seconds, which can overflow; asking for less than one
/// second of them rules that out.
pub assume_specification[ Duration::new ](secs: u64, nanos: u32) -> (d: Duration)
    requires
        nanos < 1_000_000_000,
    ensures
        duration_secs(d) == secs,
        duration_subsec_nanos(d) == nanos,
;

/// `Instant::now` reads the monotonic clock. What it reads depends on when it is called, so nothing
/// is claimed of it.
pub assume_specification[ Instant::now ]() -> (instant: Instant)
;

/// `Instant::elapsed` returns the time that has passed since the instant. What it returns depends
/// on when it is called, so nothing is claimed of it.
pub assume_specification[ Instant::elapsed ](instant: &Instant) -> (passed: Duration)
;

/// The length of a duration in nanoseconds.
pub open spec fn duration_nanos(d: Duration) -> nat {
    (duration_secs(d) * NANOS_PER_SEC + duration_subsec_nanos(d)) as nat
}

/// The largest number of nanoseconds that a duration can last.
pub open spec fn max_duration_nanos() -> nat {
    (u64::MAX * NANOS_PER_SEC + NANOS_PER_SEC - 1) as nat
}

/// The given number of nanoseconds, or as many as a duration can last if it cannot last that long.
pub open spec fn at_most_max(nanos: nat) -> nat {
    if nanos <= max_duration_nanos() {
        nanos
    } else {
        max_duration_nanos()
    }
}

/// Asking `origin` how much time has passed since can give `nanos` nanoseconds.
pub open spec fn can_pass(origin: Instant, nanos: nat) -> bool {
    exists|passed: Duration|
        call_ensures(Instant::elapsed, (&origin,), passed) && nanos == #[trigger] duration_nanos(
            passed,
        )
}

/// Returns how many nanoseconds have passed since `origin`.
pub fn nanos_since(origin: &Instant) -> (nanos: u128)
    ensures
        can_pass(*origin, nanos as nat),
        nanos <= max_duration_nanos(),
{
    let passed = origin.elapsed();
    nanos_of(&passed)
}

/// Returns the length of a duration in nanoseconds.
pub fn nanos_of(d: &Duration) -> (nanos: u128)
    ensures
        nanos == duration_nanos(*d),
        nanos <= max_duration_nanos(),
{
    let secs: u64 = d.as_secs();
    let subsec: u32 = d.subsec_nanos();
    secs as u128 * NANOS_PER_SEC + subsec as u128
}

/// Returns the duration that lasts the given number of nanoseconds, or the longest possible
/// duration if none lasts that long.
pub fn duration_of(nanos: u128) -> (d: Duration)
    ensures
        duration_nanos(d) == at_most_max(nanos as nat),
{
    let secs: u128 = nanos / NANOS_PER_SEC;
    if secs <= u64::MAX as u128 {
        let subsec: u128 = nanos % NANOS_PER_SEC;
        Duration::new(secs as u64, subsec as u32)
    } else {
        Duration::new(u64::MAX, 999_999_999)
    }
}

/// Turning a duration into nanoseconds keeps its length, and turning nanoseconds into a duration does
/// so too wherever the seconds fit into 64 bits.
pub proof fn law_durations_keep_their_length(
    duration: Duration,
    length: u128,
    nanos: u128,
    made: Duration,
)
    requires
        call_ensures(nanos_of, (&duration,), length),
        call_ensures(duration_of, (nanos,), made),
    ensures
        length == duration_secs(duration) * 1_000_000_000 + duration_subsec_nanos(duration),
        nanos < 0x1_0000_0000_0000_0000 * 1_000_000_000 ==> duration_secs(made) * 1_000_000_000
            + duration_subsec_nanos(made) == nanos,
{
}

} // verus!
