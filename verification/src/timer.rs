//! An interval counter for the frame loop: counts ticks, and reports the
//! count each time the caller-measured elapsed time reaches the configured
//! duration.  The caller owns the clock and passes the elapsed milliseconds
//! in; firing resets the count, and the caller restarts its measurement.

use vstd::prelude::*;

verus! {

/// Counts frame ticks against a configured interval.
pub struct Timer {
    pub tick: usize,
    pub duration_ms: u64,
}

impl Timer {
    /// A fresh timer with the given interval and a zero tick count.
    pub fn new(duration_milli_seconds: u64) -> (t: Timer)
        ensures
            t.tick == 0,
            t.duration_ms == duration_milli_seconds,
    {
        Timer { tick: 0, duration_ms: duration_milli_seconds }
    }

    /// Counts one tick.  When the elapsed time has reached the interval,
    /// returns the tick count since the last firing and resets it;
    /// otherwise returns nothing and keeps counting.
    pub fn tick(&mut self, elapsed_ms: u64) -> (fired: Option<usize>)
        requires
            old(self).tick < usize::MAX,
        ensures
            final(self).duration_ms == old(self).duration_ms,
            elapsed_ms >= old(self).duration_ms ==> fired == Some(
                (old(self).tick + 1) as usize,
            ) && final(self).tick == 0,
            elapsed_ms < old(self).duration_ms ==> fired == None::<usize> && final(self).tick
                == old(self).tick + 1,
    {
        self.tick = self.tick + 1;
        if elapsed_ms >= self.duration_ms {
            let t = self.tick;
            self.tick = 0;
            Some(t)
        } else {
            None
        }
    }
}

} // verus!
