use lightyear::diff::{base_value, values_close, ComponentKind, ComponentValue, Delta};

#[test]
fn round_trip_translation() {
    let a = ComponentValue::Translation { x: 10, y: 20 };
    let b = ComponentValue::Translation { x: -5, y: 7 };
    let d = a.diff(&b);
    assert_eq!(d, Delta::Shift { dx: -15, dy: -13 });
    let mut patched = a;
    patched.apply_diff(&d);
    assert_eq!(patched, b);
}

#[test]
fn round_trip_angle_wraps_shortest_path() {
    let a = ComponentValue::Angle { deg: 350 };
    let b = ComponentValue::Angle { deg: 10 };
    let d = a.diff(&b);
    // Crossing zero: twenty degrees forward, not 340 back.
    assert_eq!(d, Delta::Turn { dd: 20 });
    let mut patched = a;
    patched.apply_diff(&d);
    assert_eq!(patched, b);

    let d_back = b.diff(&a);
    assert_eq!(d_back, Delta::Turn { dd: -20 });
    let mut patched_back = b;
    patched_back.apply_diff(&d_back);
    assert_eq!(patched_back, a);
}

#[test]
fn half_turn_delta_is_positive() {
    // The shortest path for an exact half turn is +180, never -180.
    let a = ComponentValue::Angle { deg: 0 };
    let b = ComponentValue::Angle { deg: 180 };
    assert_eq!(a.diff(&b), Delta::Turn { dd: 180 });
    let mut patched = a;
    patched.apply_diff(&a.diff(&b));
    assert_eq!(patched, b);
}

#[test]
fn round_trip_discrete_replaces_wholesale() {
    let a = ComponentValue::Discrete { code: 3 };
    let b = ComponentValue::Discrete { code: 9 };
    let d = a.diff(&b);
    assert_eq!(d, Delta::Full { value: b });
    let mut patched = a;
    patched.apply_diff(&d);
    assert_eq!(patched, b);
}

#[test]
fn round_trip_mismatched_kinds_replaces_wholesale() {
    let a = ComponentValue::Translation { x: 1, y: 2 };
    let b = ComponentValue::Discrete { code: 4 };
    let d = a.diff(&b);
    assert_eq!(d, Delta::Full { value: b });
    let mut patched = a;
    patched.apply_diff(&d);
    assert_eq!(patched, b);
}

#[test]
fn base_values_are_neutral() {
    assert_eq!(
        base_value(ComponentKind::Translation),
        ComponentValue::Translation { x: 0, y: 0 }
    );
    assert_eq!(base_value(ComponentKind::Angle), ComponentValue::Angle { deg: 0 });
    assert_eq!(base_value(ComponentKind::Discrete), ComponentValue::Discrete { code: 0 });
}

#[test]
fn tolerance_on_translation() {
    let a = ComponentValue::Translation { x: 0, y: 0 };
    let b = ComponentValue::Translation { x: 3, y: -4 };
    assert!(values_close(&a, &b, 4));
    assert!(!values_close(&a, &b, 3));
    assert!(values_close(&a, &a, 0));
}

#[test]
fn tolerance_on_angle_crosses_zero() {
    let a = ComponentValue::Angle { deg: 359 };
    let b = ComponentValue::Angle { deg: 1 };
    assert!(values_close(&a, &b, 2));
    assert!(!values_close(&a, &b, 1));
}

#[test]
fn tolerance_on_discrete_is_equality() {
    let a = ComponentValue::Discrete { code: 7 };
    let b = ComponentValue::Discrete { code: 8 };
    assert!(!values_close(&a, &b, 1_000_000));
    assert!(values_close(&a, &a, 0));
}

#[test]
fn validity_bounds_coordinates_and_angles() {
    let limit = lightyear::diff::COORD_LIMIT;
    assert!(ComponentValue::Translation { x: limit, y: -limit }.is_valid());
    assert!(!ComponentValue::Translation { x: limit + 1, y: 0 }.is_valid());
    assert!(ComponentValue::Angle { deg: 359 }.is_valid());
    assert!(!ComponentValue::Angle { deg: 360 }.is_valid());
    assert!(ComponentValue::Discrete { code: u64::MAX }.is_valid());
}

#[test]
fn tolerance_never_crosses_kinds() {
    let a = ComponentValue::Translation { x: 0, y: 0 };
    let b = ComponentValue::Angle { deg: 0 };
    assert!(!values_close(&a, &b, u64::MAX));
}
