//! Fixed-rate discrete time source driving every other component.

use vstd::prelude::*;

verus! {

/// A fixed-rate clock counting discrete simulation steps. Every per-tick
/// operation (prediction, interpolation, replication batching) is keyed by
/// the current value of this clock, and the clock only ever moves forward
/// by exactly one step at a time.
pub struct TickClock {
    pub tick: u64,
}

impl TickClock {
    pub fn new() -> (r: TickClock)
        ensures
            r.tick == 0,
    {
        TickClock { tick: 0 }
    }

    /// Advance the clock by exactly one simulation step.
    pub fn advance(&mut self)
        requires
            old(self).tick < u64::MAX,
        ensures
            final(self).tick == old(self).tick + 1,
    {
        self.tick = self.tick + 1;
    }

    pub fn current(&self) -> (r: u64)
        ensures
            r == self.tick,
    {
        self.tick
    }
}

} // verus!
