//! Client/server state synchronization core: tick-indexed history buffers,
//! prediction rollback, delta compression, snapshot interpolation, replication
//! batching, and pre-spawn reconciliation.

pub mod config;
pub mod diff;
pub mod errors;
pub mod history;
pub mod interpolate;
pub mod predict;
pub mod prespawn;
pub mod replication;
pub mod schedule;
pub mod sets;
pub mod tick;
