use vstd::prelude::*;

verus! {

/// Elapsed time between ticks, from readings of a monotonic nanosecond clock.
pub struct FrameClock {
    /// Reading taken at the last tick.
    pub last_update_nanos: u64,
    /// Time between the last two ticks, in nanoseconds.
    pub frame_delta: u64,
}

impl FrameClock {
    /// A clock whose last tick was at reading `now`.
    pub fn new(now: u64) -> (c: FrameClock)
        ensures
            c.last_update_nanos == now,
            c.frame_delta == 0,
    {
        FrameClock { last_update_nanos: now, frame_delta: 0 }
    }

    /// Records a tick at reading `now`. A reading earlier than the last one
    /// (which a monotonic clock never gives) counts as no time elapsed.
    pub fn update_delta(&mut self, now: u64)
        ensures
            final(self).last_update_nanos == now,
            final(self).frame_delta == if now >= old(self).last_update_nanos {
                (now - old(self).last_update_nanos) as u64
            } else {
                0
            },
    {
        self.frame_delta = now.saturating_sub(self.last_update_nanos);
        self.last_update_nanos = now;
    }
}

} // verus!
