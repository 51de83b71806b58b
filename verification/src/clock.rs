//! A monotonic clock in whole milliseconds.
//!
//! Every rule of the library that depends on time is stated over plain
//! `u64` millisecond readings; this module is where such readings come from.

use vstd::prelude::*;

verus! {

/// A point of `std`'s monotonic clock. Nothing is known of its inside.
#[verifier::external_type_specification]
#[verifier::external_body]
pub struct ExInstant(std::time::Instant);

/// `Instant::now` returns the present reading of the monotonic clock;
/// nothing is claimed of which one.
pub assume_specification[ std::time::Instant::now ]() -> std::time::Instant;

/// `Instant::elapsed` returns the time that has passed since the instant;
/// nothing is claimed of how much.
pub assume_specification[ std::time::Instant::elapsed ](
    instant: &std::time::Instant,
) -> std::time::Duration;

/// `Duration::as_millis` returns the whole milliseconds of the duration;
/// nothing is claimed of their number.
pub assume_specification[ std::time::Duration::as_millis ](
    duration: &std::time::Duration,
) -> u128;

/// A clock that counts the milliseconds since it was started.
pub struct Clock {
    origin: std::time::Instant,
}

impl Clock {
    /// Starts a clock.
    pub fn start() -> Clock {
        Clock { origin: std::time::Instant::now() }
    }

    /// The whole milliseconds since the clock was started; a reading that
    /// does not fit is given as the greatest `u64`.
    pub fn now_ms(&self) -> u64 {
        let elapsed = self.origin.elapsed();
        Clock::reading(elapsed.as_millis())
    }

    /// The reading that stands for a number of milliseconds: the number
    /// itself, or the greatest `u64` where it does not fit.
    pub fn reading(millis: u128) -> (now: u64)
        ensures
            now == if millis > u64::MAX {
                u64::MAX as int
            } else {
                millis as int
            },
    {
        if millis > 0xffff_ffff_ffff_ffff {
            0xffff_ffff_ffff_ffff
        } else {
            millis as u64
        }
    }
}

} // verus!
