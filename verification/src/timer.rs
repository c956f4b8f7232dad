//! The clock of a ripple: a one-shot `bevy` timer, ticked once per frame.
//!
//! The registry keeps a ripple's age as a plain number of nanoseconds and
//! lets `bevy` do the ticking, so that an age here is the elapsed time that a
//! `Timer` of the engine would show.

use bevy::prelude::Timer;
use std::time::Duration;
use vstd::prelude::*;

verus! {

/// What one tick left behind.
pub struct Tick {
    /// Elapsed nanoseconds after the tick.
    pub elapsed_nanos: u64,
    /// Whether the timer reached its duration on this tick.
    pub just_finished: bool,
}

/// Ticks a one-shot timer once: a `Timer` of `bevy`, made by `Timer::new`
/// with `duration_nanos` and no repeat, set to `elapsed_nanos` by
/// `Timer::set_elapsed`, advanced by `Timer::tick` with `delta_nanos`, and
/// read with `Timer::elapsed` and `Timer::just_finished`.
///
/// Trusted, not proved. The contract says what the timer's source shows: the
/// tick adds the delta to the elapsed time; the timer is finished when the
/// sum has reached the duration; a one-shot timer that finishes reports so
/// and stops at its duration. No sum of two `u64` counts of nanoseconds is
/// beyond a `Duration`, and what is read back is below the duration or equal
/// to it, so it fits.
#[verifier::external_body]
pub(crate) fn tick_one_shot(duration_nanos: u64, elapsed_nanos: u64, delta_nanos: u64) -> (tick:
    Tick)
    ensures
        tick.just_finished == (elapsed_nanos + delta_nanos >= duration_nanos),
        tick.elapsed_nanos == if elapsed_nanos + delta_nanos >= duration_nanos {
            duration_nanos as int
        } else {
            elapsed_nanos + delta_nanos
        },
{
    let mut timer = Timer::new(Duration::from_nanos(duration_nanos), false);
    timer.set_elapsed(Duration::from_nanos(elapsed_nanos));
    timer.tick(Duration::from_nanos(delta_nanos));
    Tick { elapsed_nanos: timer.elapsed().as_nanos() as u64, just_finished: timer.just_finished() }
}

} // verus!
