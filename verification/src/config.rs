//! Client-side configuration.
//!
//! The tunables of the synchronization core: the netcode connection
//! parameters, the history-buffer depth (which bounds the supported
//! round-trip latency), the send interval (which trades bandwidth for
//! update freshness) and the interpolation delay (which trades latency
//! for smoothness).

use vstd::prelude::*;

verus! {

/// Configuration of the netcode connection layer. The packet send rate
/// is carried as an interval in whole milliseconds.
#[derive(Debug, Clone, Copy, PartialEq, Eq, Structural)]
pub struct NetcodeConfig {
    /// How many redundant disconnect packets are sent when closing.
    pub num_disconnect_packets: usize,
    /// Milliseconds between connection-maintenance packets.
    pub packet_send_interval_millis: u64,
}

impl Default for NetcodeConfig {
    /// Ten disconnect packets; one maintenance packet every 100 ms.
    fn default() -> (r: NetcodeConfig)
        ensures
            r.num_disconnect_packets == 10,
            r.packet_send_interval_millis == 100,
    {
        NetcodeConfig { num_disconnect_packets: 10, packet_send_interval_millis: 100 }
    }
}

/// Configuration of one client of the synchronization core.
#[derive(Debug, Clone, Copy, PartialEq, Eq, Structural)]
pub struct ClientConfig {
    pub netcode: NetcodeConfig,
    /// Snapshots retained per history buffer.
    pub history_capacity: usize,
    /// Simulation steps between outgoing update batches.
    pub send_interval_ticks: u64,
    /// Ticks of intentional delay behind the newest confirmed snapshot
    /// at which interpolated entities are rendered.
    pub interpolation_delay_ticks: u64,
}

impl ClientConfig {
    /// A usable configuration: buffers hold at least one snapshot and
    /// the send cadence is at least every step.
    pub open spec fn wf(self) -> bool {
        &&& self.history_capacity >= 1
        &&& self.send_interval_ticks >= 1
    }
}

impl Default for ClientConfig {
    fn default() -> (r: ClientConfig)
        ensures
            r.wf(),
            r.netcode.num_disconnect_packets == 10,
            r.netcode.packet_send_interval_millis == 100,
            r.history_capacity == 64,
            r.send_interval_ticks == 3,
            r.interpolation_delay_ticks == 6,
    {
        ClientConfig {
            netcode: NetcodeConfig {
                num_disconnect_packets: 10,
                packet_send_interval_millis: 100,
            },
            history_capacity: 64,
            send_interval_ticks: 3,
            interpolation_delay_ticks: 6,
        }
    }
}

} // verus!
