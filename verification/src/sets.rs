//! System-set labels shared between the server and the client. They name the
//! scheduling stages of the per-tick pipeline; the explicit ordering tables
//! built from them live in the `schedule` module.

use vstd::prelude::*;

verus! {

/// Marker parameter selecting the client side of a shared system set.
#[derive(Debug, Hash, PartialEq, Eq, Clone, Copy)]
pub struct ClientMarker;

/// Marker parameter selecting the server side of a shared system set.
#[derive(Debug, Hash, PartialEq, Eq, Clone, Copy)]
pub struct ServerMarker;

/// System sets related to replication.
#[derive(Debug, Hash, PartialEq, Eq)]
pub enum InternalReplicationSet<M> {
    /// Copies replicated resource data from the holding entity into the
    /// receiving world's resource.
    ReceiveResourceUpdates,
    /// Computes the pre-spawn hash of every locally pre-spawned entity.
    /// Must run before any state-mutating stage of the same tick.
    SetPreSpawnedHash,
    /// Handles addition and removal of the replication component itself.
    BeforeBuffer,
    /// Gathers entity despawns and component removals. Runs every step, not
    /// only on send-interval steps, because the underlying removal
    /// notifications are only observable for one step after they occur.
    BufferDespawnsAndRemovals,
    /// Buffers entity-update records; runs only on send-interval steps.
    BufferEntityUpdates,
    /// Buffers component-update records; runs only on send-interval steps.
    BufferComponentUpdates,
    /// Buffers resource-update records; runs only on send-interval steps.
    BufferResourceUpdates,
    /// All stages that buffer replication messages.
    Buffer,
    /// Handles updates of an existing replication component.
    AfterBuffer,
    /// Assembles the buffered records and hands the batch to the transport.
    /// Runs on send-interval steps, not every step.
    SendMessages,
    /// Encompasses every replication-send stage.
    All,
    _Marker(core::marker::PhantomData<M>),
    SendMessage,
    EmitEvents,
}

/// Main stages used to receive and send data.
#[derive(Debug, Hash, PartialEq, Eq, Clone, Copy)]
pub enum MainSet {
    /// Receives data from the remote peers; runs before the simulation step.
    Receive,
    /// Writes networking events observed while receiving; runs after
    /// `Receive`.
    ReceiveEvents,
    /// Reads send-message events and buffers them for the transport; runs
    /// after the simulation step, before `Send`.
    SendEvents,
    /// Hands the buffered packets to the transport.
    Send,
}

/// Stages that run inside the fixed-rate simulation schedule.
#[derive(Debug, Hash, PartialEq, Eq, Clone, Copy)]
pub enum FixedUpdateSet {
    /// Increments the tick clock at the start of each fixed step.
    TickUpdate,
}

} // verus!
