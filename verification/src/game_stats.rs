//! The time that a game has left.

use vstd::prelude::*;

verus! {

/// Length of a game in seconds.
pub const TIME_LOOP_SECONDS: u64 = 600;

/// When the game started and how long it lasts, in seconds.
#[derive(Copy, Clone, Debug, PartialEq, Eq, Structural)]
pub struct GameStats {
    pub started_at: u64,
    pub time_loop_length: u64,
}

/// An integer kept within the range of `i32`.
pub open spec fn clamped(v: int) -> int {
    if v < i32::MIN {
        i32::MIN as int
    } else if v > i32::MAX {
        i32::MAX as int
    } else {
        v
    }
}

impl GameStats {
    /// The stats of a game of the usual length that starts at `now`.
    pub fn new(now: u64) -> (s: GameStats)
        ensures
            s == (GameStats { started_at: now, time_loop_length: TIME_LOOP_SECONDS }),
    {
        GameStats { started_at: now, time_loop_length: TIME_LOOP_SECONDS }
    }

    /// The seconds that the game has left at `now`; negative once the time
    /// is up.
    pub fn time_left(&self, now: u64) -> (left: i32)
        ensures
            left == clamped(self.time_loop_length - (now - self.started_at)),
    {
        let passed: i128 = now as i128 - self.started_at as i128;
        let left: i128 = self.time_loop_length as i128 - passed;
        if left < i32::MIN as i128 {
            i32::MIN
        } else if left > i32::MAX as i128 {
            i32::MAX
        } else {
            left as i32
        }
    }

    /// Starts the time of the game anew at `now`.
    pub fn reset(&mut self, now: u64)
        ensures
            final(self).started_at == now,
            final(self).time_loop_length == old(self).time_loop_length,
    {
        self.started_at = now;
    }
}

} // verus!
