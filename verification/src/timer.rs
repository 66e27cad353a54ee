//! Repeating timers that gate how often a shot may be fired.

use bevy::time::{Timer, TimerMode};
use core::time::Duration;
use vstd::prelude::*;

verus! {

/// Whether a repeating timer with `elapsed` on its clock completes a period
/// when `delta` more passes.
pub open spec fn completes_period(period: int, elapsed: int, delta: int) -> bool {
    elapsed + delta >= period
}

/// What is on the clock of a repeating timer after `delta` more has passed:
/// full periods are taken off.
pub open spec fn clock_after(period: int, elapsed: int, delta: int) -> int {
    if elapsed + delta < period {
        elapsed + delta
    } else if period == 0 {
        0
    } else {
        (elapsed + delta) % period
    }
}

/// One `Timer::tick` of a repeating, unpaused `bevy` timer whose duration is
/// `period_us` and whose clock stands at `elapsed_us`, all in microseconds.
/// The contract says what `tick` does to such a timer: the clock advances by
/// the delta, the timer is finished exactly if the clock has reached the
/// duration, and in that case the clock keeps the remainder of the division
/// by the duration (zero for a zero duration).
#[verifier::external_body]
fn repeating_tick(period_us: u32, elapsed_us: u32, delta_us: u32) -> (out: (bool, u32))
    ensures
        out.0 == completes_period(period_us as int, elapsed_us as int, delta_us as int),
        out.1 == clock_after(period_us as int, elapsed_us as int, delta_us as int),
{
    let mut timer = Timer::new(Duration::from_micros(period_us as u64), TimerMode::Repeating);
    timer.set_elapsed(Duration::from_micros(elapsed_us as u64));
    timer.tick(Duration::from_micros(delta_us as u64));
    (timer.finished(), timer.elapsed().as_micros() as u32)
}

/// A repeating timer. It is ready on exactly those ticks on which a period
/// completes.
#[derive(Clone, Copy, Debug, PartialEq, Eq, Structural)]
pub struct FireTimer {
    pub period_us: u32,
    pub elapsed_us: u32,
}

impl FireTimer {
    /// A timer with the given period and nothing on its clock.
    pub fn new(period_us: u32) -> (t: FireTimer)
        ensures
            t == (FireTimer { period_us, elapsed_us: 0 }),
    {
        FireTimer { period_us, elapsed_us: 0 }
    }

    /// The timer after `delta_us` more has passed.
    pub open spec fn advanced(self, delta_us: u32) -> FireTimer {
        FireTimer {
            period_us: self.period_us,
            elapsed_us: clock_after(
                self.period_us as int,
                self.elapsed_us as int,
                delta_us as int,
            ) as u32,
        }
    }

    /// Whether the timer is ready after `delta_us` more has passed.
    pub open spec fn ready_after(self, delta_us: u32) -> bool {
        completes_period(self.period_us as int, self.elapsed_us as int, delta_us as int)
    }

    /// Advances the timer and says whether it is ready on this tick.
    pub fn tick(&mut self, delta_us: u32) -> (ready: bool)
        ensures
            ready == old(self).ready_after(delta_us),
            *final(self) == old(self).advanced(delta_us),
    {
        let (ready, elapsed_us) = repeating_tick(self.period_us, self.elapsed_us, delta_us);
        self.elapsed_us = elapsed_us;
        ready
    }
}

} // verus!
