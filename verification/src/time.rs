//! Measuring time. Instants and durations are counted in nanoseconds; the
//! clock is read by the caller.

use vstd::prelude::*;

verus! {

/// The timing of the game loop.
#[derive(Copy, Clone, Debug, PartialEq, Eq, Structural)]
pub struct Time {
    /// How long the last tick took.
    pub delta_time: u64,
    /// How long a fixed step is.
    pub fixed_step: u64,
    /// When the last fixed step was made.
    pub last_fixed_update: u64,
}

/// A stopwatch: not yet started, running since an instant with a duration
/// already measured, or stopped with a duration.
#[derive(Copy, Clone, Debug, PartialEq, Eq, Structural)]
pub enum Stopwatch {
    Waiting,
    Started(u64, u64),
    Ended(u64),
}

impl Default for Stopwatch {
    fn default() -> (s: Stopwatch)
        ensures
            s == Stopwatch::Waiting,
    {
        Stopwatch::Waiting
    }
}

impl Stopwatch {
    /// The duration measured up to the instant `now`.
    pub open spec fn measured(&self, now: u64) -> int {
        match *self {
            Stopwatch::Waiting => 0,
            Stopwatch::Started(duration, start) => duration + (now - start),
            Stopwatch::Ended(duration) => duration as int,
        }
    }

    /// Whether the stopwatch can be read at the instant `now`: a running
    /// stopwatch was not started later, and the duration can be counted.
    pub open spec fn readable(&self, now: u64) -> bool {
        match *self {
            Stopwatch::Started(duration, start) => start <= now && duration + (now - start)
                <= u64::MAX,
            _ => true,
        }
    }

    /// The duration measured up to the instant `now`.
    pub fn elapsed(&self, now: u64) -> (d: u64)
        requires
            self.readable(now),
        ensures
            d == self.measured(now),
    {
        match *self {
            Stopwatch::Waiting => 0,
            Stopwatch::Started(duration, start) => duration + (now - start),
            Stopwatch::Ended(duration) => duration,
        }
    }

    /// Starts the stopwatch at the instant `now`, or lets it run on after a
    /// stop. A running stopwatch runs on.
    pub fn start(&mut self, now: u64)
        ensures
            *final(self) == match *old(self) {
                Stopwatch::Waiting => Stopwatch::Started(0, now),
                Stopwatch::Ended(duration) => Stopwatch::Started(duration, now),
                Stopwatch::Started(duration, start) => Stopwatch::Started(duration, start),
            },
    {
        match *self {
            Stopwatch::Waiting => self.restart(now),
            Stopwatch::Ended(duration) => {
                *self = Stopwatch::Started(duration, now);
            },
            _ => {},
        }
    }

    /// Starts the stopwatch at the instant `now` with nothing measured.
    pub fn restart(&mut self, now: u64)
        ensures
            *final(self) == Stopwatch::Started(0, now),
    {
        *self = Stopwatch::Started(0, now);
    }

    /// Stops a running stopwatch at the instant `now`.
    pub fn stop(&mut self, now: u64)
        requires
            old(self).readable(now),
        ensures
            *final(self) == match *old(self) {
                Stopwatch::Started(duration, start) => Stopwatch::Ended(
                    (duration + (now - start)) as u64,
                ),
                other => other,
            },
    {
        if let Stopwatch::Started(duration, start) = *self {
            *self = Stopwatch::Ended(duration + (now - start));
        }
    }
}

} // verus!
