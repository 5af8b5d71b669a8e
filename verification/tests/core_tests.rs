use lightyear::config::{ClientConfig, NetcodeConfig};
use lightyear::errors::SyncError;
use lightyear::schedule::{fixed_post_update_order, post_update_order, FixedPostUpdateStage,
    PostUpdateStage};
use lightyear::sets::{ClientMarker, FixedUpdateSet, InternalReplicationSet, MainSet,
    ServerMarker};
use lightyear::tick::TickClock;

#[test]
fn tick_clock_advances_by_exactly_one() {
    let mut clock = TickClock::new();
    assert_eq!(clock.current(), 0);
    clock.advance();
    clock.advance();
    assert_eq!(clock.current(), 2);
}

#[test]
fn netcode_defaults() {
    let c = NetcodeConfig::default();
    assert_eq!(c.num_disconnect_packets, 10);
    assert_eq!(c.packet_send_interval_millis, 100);
}

#[test]
fn client_config_defaults_are_usable() {
    let c = ClientConfig::default();
    assert!(c.history_capacity >= 1);
    assert!(c.send_interval_ticks >= 1);
    assert_eq!(c.history_capacity, 64);
    assert_eq!(c.send_interval_ticks, 3);
    assert_eq!(c.interpolation_delay_ticks, 6);
}

#[test]
fn prespawn_hash_runs_before_physics() {
    let order = fixed_post_update_order();
    let hash_at = order
        .iter()
        .position(|s| *s == FixedPostUpdateStage::SetPreSpawnedHash)
        .unwrap();
    let prepare_at = order
        .iter()
        .position(|s| *s == FixedPostUpdateStage::PhysicsPrepare)
        .unwrap();
    let sync_at = order
        .iter()
        .position(|s| *s == FixedPostUpdateStage::PhysicsSync)
        .unwrap();
    let history_at = order
        .iter()
        .position(|s| *s == FixedPostUpdateStage::UpdateHistory)
        .unwrap();
    let rollback_at = order
        .iter()
        .position(|s| *s == FixedPostUpdateStage::IncrementRollbackTick)
        .unwrap();
    let visual_at = order
        .iter()
        .position(|s| *s == FixedPostUpdateStage::UpdateVisualInterpolationState)
        .unwrap();
    assert!(hash_at < prepare_at, "hashes are computed before physics runs");
    assert!(sync_at < history_at, "history updates after physics has synced");
    assert!(sync_at < rollback_at);
    assert!(sync_at < visual_at);
}

#[test]
fn render_stages_are_chained() {
    let order = post_update_order();
    assert_eq!(
        order,
        vec![
            PostUpdateStage::VisualInterpolation,
            PostUpdateStage::PhysicsSync,
            PostUpdateStage::TransformPropagate,
        ]
    );
}

#[test]
fn error_descriptions() {
    assert_eq!(SyncError::StaleCorrection.describe(), "stale correction");
    assert_eq!(SyncError::OutOfOrderTick.describe(), "out-of-order tick");
    assert_eq!(SyncError::AmbiguousPreSpawn.describe(), "ambiguous pre-spawn hash");
    assert_eq!(
        SyncError::ReplayDivergenceUnrecoverable.describe(),
        "unrecoverable replay divergence"
    );
}

#[test]
fn shared_set_labels_exist_for_both_sides() {
    let _client = ClientMarker;
    let _server = ServerMarker;
    let a = InternalReplicationSet::<ClientMarker>::SetPreSpawnedHash;
    let b = InternalReplicationSet::<ClientMarker>::BufferDespawnsAndRemovals;
    assert_ne!(a, b);
    assert_eq!(MainSet::Receive, MainSet::Receive);
    assert_ne!(MainSet::Receive, MainSet::Send);
    assert_eq!(FixedUpdateSet::TickUpdate, FixedUpdateSet::TickUpdate);
}
