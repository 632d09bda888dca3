use vstd::prelude::*;
use std::time::Duration;
use std::time::Instant;

verus! {

/// `std::time::Instant` as an opaque value: one reading of the monotonic
/// clock.
#[verifier::external_type_specification]
#[verifier::external_body]
pub struct ExInstant(Instant);

/// Relies on `std::time::Instant::now`: a reading of the monotonic clock.
/// Nothing is promised of the value.
#[verifier::external_body]
pub(crate) fn instant_now() -> Instant {
    Instant::now()
}

/// Relies on `std::time::Instant::elapsed`: the time since `start` on the
/// monotonic clock. Nothing is promised of the value.
#[verifier::external_body]
pub(crate) fn instant_elapsed(start: &Instant) -> Duration {
    start.elapsed()
}

/// Relies on `std::time::Duration::as_micros`: the duration in whole
/// microseconds. The value depends on the opaque duration alone, but no
/// model of it is kept, so nothing is promised of the value.
#[verifier::external_body]
pub(crate) fn duration_as_micros(d: &Duration) -> u128 {
    d.as_micros()
}

/// Relies on `std::hint::spin_loop`: a hint to the core inside a spin
/// wait; no observable effect.
#[verifier::external_body]
pub(crate) fn cpu_spin() {
    std::hint::spin_loop();
}

/// Spins the CPU until at least `duration` has passed on the monotonic
/// clock, without yielding to the scheduler. The clock is re-read on every
/// turn; the fuel counter only bounds the loop for the termination check
/// and lies far beyond any reachable turn count.
pub fn busy_sleep(duration: Duration) {
    let limit: u128 = duration_as_micros(&duration);
    let start = instant_now();
    let mut fuel: u64 = u64::MAX;
    while fuel > 0
        decreases fuel,
    {
        let elapsed = duration_as_micros(&instant_elapsed(&start));
        if elapsed >= limit {
            break;
        }
        cpu_spin();
        fuel = fuel - 1;
    }
}

} // verus!
