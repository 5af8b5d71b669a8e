use lightyear::diff::ComponentValue;
use lightyear::history::HistoryBuffer;
use lightyear::interpolate::{
    interpolated_despawn, interpolation_factor, lerp, render_tick, sample, InterpolatedEntity,
};

fn tr(x: i64, y: i64) -> ComponentValue {
    ComponentValue::Translation { x, y }
}

#[test]
fn lerp_endpoints_are_exact() {
    let a = tr(3, -9);
    let b = tr(-41, 17);
    assert_eq!(lerp(&a, &b, 0, 7), a);
    assert_eq!(lerp(&a, &b, 7, 7), b);
}

#[test]
fn lerp_midpoint_translation() {
    let a = tr(0, 0);
    let b = tr(10, 20);
    assert_eq!(lerp(&a, &b, 1, 2), tr(5, 10));
    assert_eq!(lerp(&a, &b, 1, 4), tr(2, 5));
}

#[test]
fn lerp_angle_takes_shortest_path() {
    let a = ComponentValue::Angle { deg: 350 };
    let b = ComponentValue::Angle { deg: 10 };
    // Halfway across zero is zero, not 180.
    assert_eq!(lerp(&a, &b, 1, 2), ComponentValue::Angle { deg: 0 });
    assert_eq!(lerp(&a, &b, 0, 2), a);
    assert_eq!(lerp(&a, &b, 2, 2), b);
}

#[test]
fn lerp_discrete_holds_start_until_the_end() {
    let a = ComponentValue::Discrete { code: 1 };
    let b = ComponentValue::Discrete { code: 2 };
    assert_eq!(lerp(&a, &b, 1, 2), a);
    assert_eq!(lerp(&a, &b, 2, 2), b);
}

#[test]
fn factor_stays_in_unit_range() {
    let (num, den) = interpolation_factor(10, 20, 10);
    assert_eq!((num, den), (0, 10));
    let (num, den) = interpolation_factor(10, 20, 20);
    assert_eq!((num, den), (10, 10));
    let (num, den) = interpolation_factor(10, 20, 13);
    assert_eq!((num, den), (3, 10));
    assert!(num <= den && den >= 1);
}

#[test]
fn render_tick_applies_the_delay() {
    assert_eq!(render_tick(100, 6), 94);
    assert_eq!(render_tick(3, 6), 0);
}

#[test]
fn sample_blends_between_brackets() {
    let mut h: HistoryBuffer<ComponentValue> = HistoryBuffer::new(8);
    h.push(10, tr(0, 0)).unwrap();
    h.push(20, tr(10, 10)).unwrap();
    assert_eq!(sample(&h, 15), Some(tr(5, 5)));
    assert_eq!(sample(&h, 10), Some(tr(0, 0)));
    assert_eq!(sample(&h, 20), Some(tr(10, 10)));
    // Outside the stored range, the nearest known value holds.
    assert_eq!(sample(&h, 25), Some(tr(10, 10)));
    assert_eq!(sample(&h, 5), Some(tr(0, 0)));
    let empty: HistoryBuffer<ComponentValue> = HistoryBuffer::new(8);
    assert_eq!(sample(&empty, 15), None);
}

#[test]
fn despawn_waits_for_the_buffer_to_drain() {
    // An interpolated entity whose confirmed counterpart is removed
    // persists until its buffer holds at most one snapshot, and is
    // removed on the following sweep.
    let mut e = InterpolatedEntity::new(1, 8);
    for t in [10u64, 20, 30] {
        e.history.push(t, tr(t as i64, 0)).unwrap();
    }
    e.on_confirmed_despawned();
    let mut world = vec![e];
    let removed = interpolated_despawn(&mut world);
    assert_eq!(world.len(), 1, "three snapshots left: the entity persists");
    assert!(removed.is_empty());

    world[0].advance_render(25);
    assert_eq!(world[0].history.len(), 2);
    let removed = interpolated_despawn(&mut world);
    assert_eq!(world.len(), 1, "two snapshots left: the entity persists");
    assert!(removed.is_empty());

    world[0].advance_render(35);
    assert_eq!(world[0].history.len(), 1);
    let removed = interpolated_despawn(&mut world);
    assert_eq!(world.len(), 0, "drained to one snapshot: removed on the next sweep");
    assert_eq!(removed, vec![1], "the removal is reported for subscribers");
}

#[test]
fn undespawned_entities_survive_the_sweep() {
    let mut keepable = InterpolatedEntity::new(2, 8);
    keepable.history.push(1, tr(0, 0)).unwrap();
    let mut world = vec![keepable];
    let removed = interpolated_despawn(&mut world);
    assert_eq!(world.len(), 1, "no despawn pending: one snapshot is fine");
    assert!(removed.is_empty());
}

#[test]
fn confirmed_component_removal_clears_the_interpolated_history() {
    let mut e = InterpolatedEntity::new(3, 8);
    e.history.push(1, tr(1, 1)).unwrap();
    e.on_confirmed_component_removed();
    assert_eq!(e.history.len(), 0);
    assert!(!e.should_despawn() || e.history.len() == 0);
}
