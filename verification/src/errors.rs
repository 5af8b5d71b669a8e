//! Error taxonomy. Every condition here is handled locally: the engine
//! favors continuing with the best available state over halting.

use vstd::prelude::*;

verus! {

/// A recoverable synchronization fault.
#[derive(Debug, Clone, Copy, PartialEq, Eq, Structural)]
pub enum SyncError {
    /// A confirmed snapshot arrived for a tick older than the retained
    /// history; the correction is out of window and is dropped.
    StaleCorrection,
    /// A tick regression in an incoming stream; the entry is dropped.
    OutOfOrderTick,
    /// A pre-spawn hash collision among unconfirmed local spawns; resolved
    /// deterministically by creation order.
    AmbiguousPreSpawn,
    /// The simulation step signalled an unrecoverable failure during
    /// replay; the entity is force-resynced to the confirmed value.
    ReplayDivergenceUnrecoverable,
}

impl SyncError {
    /// A short human-readable name for the fault.
    pub fn describe(&self) -> (r: &'static str)
    {
        match self {
            SyncError::StaleCorrection => "stale correction",
            SyncError::OutOfOrderTick => "out-of-order tick",
            SyncError::AmbiguousPreSpawn => "ambiguous pre-spawn hash",
            SyncError::ReplayDivergenceUnrecoverable => "unrecoverable replay divergence",
        }
    }
}

} // verus!
