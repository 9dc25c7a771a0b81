//! The clock the engine reads to time gravity.

use vstd::prelude::*;

verus! {

/// Milliseconds that must pass after a downward move before gravity moves
/// the falling piece again.
pub const GRAVITY_INTERVAL_MS: u128 = 1000;

/// An instant of some clock; only the time between two instants matters.
pub trait ClockInstant {
    /// Whole milliseconds from `self` to `other_instant`.
    fn difference_millis(&self, other_instant: &Self) -> u128;
}

/// A source of instants.
pub trait Clock<T: ClockInstant> {
    fn now(&self) -> T;
}

/// A clock that shows whatever time it is set to.
pub struct ManualClock {
    pub now_milliseconds: u128,
}

/// An instant of a `ManualClock`.
pub struct ManualClockInstant {
    pub milliseconds: u128,
}

impl Clock<ManualClockInstant> for ManualClock {
    fn now(&self) -> (r: ManualClockInstant)
        ensures
            r.milliseconds == self.now_milliseconds,
    {
        ManualClockInstant { milliseconds: self.now_milliseconds }
    }
}

/// Milliseconds from `earlier` to `later` on a manual clock, zero when
/// `later` comes first.
pub open spec fn manual_elapsed(earlier: ManualClockInstant, later: ManualClockInstant) -> int {
    if later.milliseconds >= earlier.milliseconds {
        later.milliseconds - earlier.milliseconds
    } else {
        0
    }
}

impl ClockInstant for ManualClockInstant {
    fn difference_millis(&self, other_instant: &Self) -> (r: u128)
        ensures
            r == manual_elapsed(*self, *other_instant),
    {
        if other_instant.milliseconds >= self.milliseconds {
            other_instant.milliseconds - self.milliseconds
        } else {
            0
        }
    }
}

/// Whether gravity is due `elapsed` milliseconds after the last downward
/// move: only once strictly more than the interval has passed.
pub open spec fn is_gravity_due(elapsed: int) -> bool {
    elapsed > GRAVITY_INTERVAL_MS
}

/// Whether gravity is due after `elapsed_millis` milliseconds without a
/// downward move.
pub fn gravity_due(elapsed_millis: u128) -> (r: bool)
    ensures
        r == is_gravity_due(elapsed_millis as int),
{
    elapsed_millis > GRAVITY_INTERVAL_MS
}

/// With a manual clock, gravity is due at the instant `now` after a downward
/// move at the instant `moved` exactly when `now` lies strictly more than the
/// interval after `moved`; in particular it is not due at any instant up to
/// one interval after the move.
pub proof fn lemma_gravity_at_most_once_per_interval(
    moved: ManualClockInstant,
    now: ManualClockInstant,
)
    ensures
        is_gravity_due(manual_elapsed(moved, now)) <==> now.milliseconds > moved.milliseconds
            + GRAVITY_INTERVAL_MS,
{
}

} // verus!
