use lightyear::errors::SyncError;
use lightyear::prespawn::PreSpawnRegistry;

#[test]
fn matching_spawn_merges_into_the_local_entity() {
    // A local speculative spawn with hash H followed by an authoritative
    // spawn computing the same H yields exactly one entity.
    let mut reg = PreSpawnRegistry::new();
    reg.register(0xABCD, 17, 3).unwrap();
    let (entity, created) = reg.incoming_spawn(0xABCD, 99);
    assert_eq!(entity, 17, "the incoming spawn reuses the local entity");
    assert!(!created, "no second entity is created");
    assert_eq!(reg.len(), 0);
}

#[test]
fn unmatched_spawn_creates_a_new_entity() {
    let mut reg = PreSpawnRegistry::new();
    reg.register(0xABCD, 17, 3).unwrap();
    let (entity, created) = reg.incoming_spawn(0xEEEE, 99);
    assert_eq!(entity, 99);
    assert!(created);
    assert_eq!(reg.len(), 1, "the unmatched local spawn is still pending");
}

#[test]
fn collisions_resolve_in_creation_order() {
    let mut reg = PreSpawnRegistry::new();
    assert!(reg.register(7, 100, 1).is_ok());
    // The second spawn with the same hash is ambiguous but recorded.
    assert_eq!(reg.register(7, 200, 1), Err(SyncError::AmbiguousPreSpawn));
    assert_eq!(reg.match_incoming(7), Some(100));
    assert_eq!(reg.match_incoming(7), Some(200));
    assert_eq!(reg.match_incoming(7), None);
}

#[test]
fn contains_hash_sees_pending_spawns_only() {
    let mut reg = PreSpawnRegistry::new();
    assert!(!reg.contains_hash(5));
    reg.register(5, 1, 0).unwrap();
    assert!(reg.contains_hash(5));
    reg.match_incoming(5);
    assert!(!reg.contains_hash(5));
}

#[test]
fn expired_speculative_spawns_are_orphaned() {
    let mut reg = PreSpawnRegistry::new();
    reg.register(1, 10, 0).unwrap();
    reg.register(2, 20, 8).unwrap();
    // Timeout of 5 ticks at tick 10: the spawn from tick 0 is rejected,
    // the one from tick 8 still waits.
    reg.expire(10, 5);
    assert_eq!(reg.len(), 1);
    assert!(!reg.contains_hash(1));
    assert!(reg.contains_hash(2));
}
