use lightyear::diff::{ComponentValue, Delta};
use lightyear::replication::{
    build_batch, is_send_step, AckKey, AckLedger, ComponentChange, ComponentRemoval,
    ReplicationRecord, ResourceChange,
};

fn tr(x: i64) -> ComponentValue {
    ComponentValue::Translation { x, y: 0 }
}

fn key(peer: u64, entity: u64, component: u64) -> AckKey {
    AckKey { peer, entity, component }
}

#[test]
fn batch_never_updates_a_removed_entity() {
    // Entity 1 despawns this step while an update for it is still
    // pending: the update is suppressed, entity 2's update goes out.
    let despawns = vec![1u64];
    let removals: Vec<ComponentRemoval> = vec![];
    let spawns: Vec<u64> = vec![];
    let updates = vec![
        ComponentChange { entity: 1, component: 7, value: tr(10) },
        ComponentChange { entity: 2, component: 7, value: tr(20) },
    ];
    let resources: Vec<ResourceChange> = vec![];
    let ledger = AckLedger::new();
    let batch = build_batch(
        5, true, &despawns, &removals, &spawns, &updates, &resources, &ledger, 0,
    );
    assert_eq!(batch.tick, 5);
    assert_eq!(batch.records.len(), 2);
    assert_eq!(batch.records[0], ReplicationRecord::EntityDespawn { entity: 1 });
    match batch.records[1] {
        ReplicationRecord::ComponentUpdate { entity, component, .. } => {
            assert_eq!((entity, component), (2, 7));
        },
        ref other => panic!("expected an update for entity 2, got {:?}", other),
    }
}

#[test]
fn removals_precede_updates_and_block_their_entity() {
    let despawns: Vec<u64> = vec![];
    let removals = vec![ComponentRemoval { entity: 3, component: 1 }];
    let spawns = vec![3u64, 4];
    let updates = vec![ComponentChange { entity: 3, component: 2, value: tr(1) }];
    let resources: Vec<ResourceChange> = vec![];
    let ledger = AckLedger::new();
    let batch = build_batch(
        1, true, &despawns, &removals, &spawns, &updates, &resources, &ledger, 0,
    );
    assert_eq!(
        batch.records,
        vec![
            ReplicationRecord::ComponentRemove { entity: 3, component: 1 },
            ReplicationRecord::EntitySpawn { entity: 4 },
        ]
    );
}

#[test]
fn non_send_steps_carry_only_despawns_and_removals() {
    let despawns = vec![9u64];
    let removals = vec![ComponentRemoval { entity: 8, component: 1 }];
    let spawns = vec![7u64];
    let updates = vec![ComponentChange { entity: 6, component: 1, value: tr(5) }];
    let resources = vec![ResourceChange { resource: 1, value: tr(9) }];
    let ledger = AckLedger::new();
    let batch = build_batch(
        2, false, &despawns, &removals, &spawns, &updates, &resources, &ledger, 0,
    );
    assert_eq!(
        batch.records,
        vec![
            ReplicationRecord::EntityDespawn { entity: 9 },
            ReplicationRecord::ComponentRemove { entity: 8, component: 1 },
        ]
    );
}

#[test]
fn first_update_sends_the_full_value() {
    let ledger = AckLedger::new();
    let payload = ledger.compress_update(key(0, 1, 7), tr(42));
    assert_eq!(payload, Delta::Full { value: tr(42) });
}

#[test]
fn later_updates_send_a_delta_that_reconstructs_the_value() {
    let mut ledger = AckLedger::new();
    ledger.acknowledge(key(0, 1, 7), tr(40));
    let payload = ledger.compress_update(key(0, 1, 7), tr(42));
    assert_eq!(payload, Delta::Shift { dx: 2, dy: 0 });
    // The receiver applies the delta to what it acknowledged.
    let mut receiver_value = tr(40);
    receiver_value.apply_diff(&payload);
    assert_eq!(receiver_value, tr(42));
}

#[test]
fn acknowledgments_are_tracked_per_peer_entity_and_component() {
    let mut ledger = AckLedger::new();
    ledger.acknowledge(key(0, 1, 7), tr(10));
    ledger.acknowledge(key(1, 1, 7), tr(20));
    assert_eq!(ledger.last_acked(key(0, 1, 7)), Some(tr(10)));
    assert_eq!(ledger.last_acked(key(1, 1, 7)), Some(tr(20)));
    assert_eq!(ledger.last_acked(key(2, 1, 7)), None);
    ledger.acknowledge(key(0, 1, 7), tr(30));
    assert_eq!(ledger.last_acked(key(0, 1, 7)), Some(tr(30)));
    assert_eq!(ledger.last_acked(key(1, 1, 7)), Some(tr(20)));
}

#[test]
fn send_cadence() {
    assert!(is_send_step(0, 3));
    assert!(!is_send_step(1, 3));
    assert!(!is_send_step(2, 3));
    assert!(is_send_step(3, 3));
    assert!(is_send_step(17, 1));
}

#[test]
fn resource_updates_ride_send_steps() {
    let despawns: Vec<u64> = vec![];
    let removals: Vec<ComponentRemoval> = vec![];
    let spawns: Vec<u64> = vec![];
    let updates: Vec<ComponentChange> = vec![];
    let resources = vec![ResourceChange { resource: 4, value: tr(8) }];
    let ledger = AckLedger::new();
    let batch = build_batch(
        3, true, &despawns, &removals, &spawns, &updates, &resources, &ledger, 0,
    );
    assert_eq!(
        batch.records,
        vec![ReplicationRecord::ResourceUpdate {
            resource: 4,
            payload: Delta::Full { value: tr(8) },
        }]
    );
}
