//! Base/diff/patch engine over component values.
//!
//! A component value is the typed piece of state attached to an entity. The
//! engine exposes a neutral `base_value`, a `diff` producing a delta between
//! two values, and `apply_diff` patching a value with a delta. Continuous
//! quantities are carried as fixed-point integers; angles are whole degrees
//! in `[0, 360)` and angular deltas are normalized to the shortest
//! rotational path. Discrete state has no meaningful delta: its diff is the
//! full new value and applying it replaces wholesale.

use vstd::prelude::*;

verus! {

/// Largest magnitude a translational coordinate may take. Bounding the
/// coordinates keeps every difference of two valid values inside `i64`.
pub const COORD_LIMIT: i64 = 1_000_000_000_000;

/// Degrees in a full turn.
pub const TURN_DEGREES: u32 = 360;

/// Degrees in a half turn; angular deltas never exceed this magnitude.
pub const HALF_TURN_DEGREES: u32 = 180;

/// A typed piece of replicated state attached to an entity.
#[derive(Debug, Clone, Copy, PartialEq, Eq, Structural)]
pub enum ComponentValue {
    /// A translational quantity (position, velocity) with fixed-point
    /// coordinates.
    Translation { x: i64, y: i64 },
    /// A rotational quantity in whole degrees, always in `[0, 360)`.
    Angle { deg: u32 },
    /// Discrete state with no meaningful delta.
    Discrete { code: u64 },
}

/// The change between two component values.
#[derive(Debug, Clone, Copy, PartialEq, Eq, Structural)]
pub enum Delta {
    /// Coordinate-wise difference of two translational values.
    Shift { dx: i64, dy: i64 },
    /// Shortest rotational path between two angles, in `(-180, 180]`.
    Turn { dd: i32 },
    /// The full new value, for state with no meaningful delta.
    Full { value: ComponentValue },
}

/// Which of the component variants a registered component type uses.
#[derive(Debug, Clone, Copy, PartialEq, Eq, Structural)]
pub enum ComponentKind {
    Translation,
    Angle,
    Discrete,
}

pub open spec fn spec_abs(x: int) -> int {
    if x < 0 {
        -x
    } else {
        x
    }
}

/// Shortest rotational path from angle `a` to angle `b`, both in
/// `[0, 360)`; the result lies in `(-180, 180]`.
pub open spec fn spec_angle_delta(a: int, b: int) -> int {
    let raw = if b >= a {
        b - a
    } else {
        b + 360 - a
    };
    if raw > 180 {
        raw - 360
    } else {
        raw
    }
}

/// Wraps `t` back into `[0, 360)`, for `t` in `(-360, 720)`.
pub open spec fn spec_wrap_angle(t: int) -> int {
    if t < 0 {
        t + 360
    } else if t >= 360 {
        t - 360
    } else {
        t
    }
}

impl ComponentValue {
    /// Well-formedness of a component value: coordinates bounded, angles in
    /// `[0, 360)`.
    pub open spec fn valid(self) -> bool {
        match self {
            ComponentValue::Translation { x, y } => {
                &&& -COORD_LIMIT <= x <= COORD_LIMIT
                &&& -COORD_LIMIT <= y <= COORD_LIMIT
            },
            ComponentValue::Angle { deg } => deg < TURN_DEGREES,
            ComponentValue::Discrete { .. } => true,
        }
    }

    /// Observational equality within a tolerance: continuous quantities may
    /// differ by at most `tol` per axis (for angles, along the shortest
    /// rotational path); discrete state must be identical.
    pub open spec fn spec_close(self, other: ComponentValue, tol: u64) -> bool {
        match (self, other) {
            (
                ComponentValue::Translation { x: x1, y: y1 },
                ComponentValue::Translation { x: x2, y: y2 },
            ) => spec_abs(x2 - x1) <= tol && spec_abs(y2 - y1) <= tol,
            (ComponentValue::Angle { deg: a }, ComponentValue::Angle { deg: b }) => spec_abs(
                spec_angle_delta(a as int, b as int),
            ) <= tol,
            (ComponentValue::Discrete { code: c1 }, ComponentValue::Discrete { code: c2 }) => c1
                == c2,
            _ => false,
        }
    }
}

/// Mathematical definition of `diff`: coordinate-wise difference for
/// translations, shortest rotational path for angles, and the full new
/// value for discrete state or mismatched variants.
pub open spec fn spec_diff(old_value: ComponentValue, new_value: ComponentValue) -> Delta {
    match (old_value, new_value) {
        (
            ComponentValue::Translation { x: x1, y: y1 },
            ComponentValue::Translation { x: x2, y: y2 },
        ) => Delta::Shift { dx: (x2 - x1) as i64, dy: (y2 - y1) as i64 },
        (ComponentValue::Angle { deg: a }, ComponentValue::Angle { deg: b }) => Delta::Turn {
            dd: spec_angle_delta(a as int, b as int) as i32,
        },
        _ => Delta::Full { value: new_value },
    }
}

/// Mathematical definition of `apply_diff`: addition for translations,
/// wrapped addition for angles, wholesale replacement for a full delta.
/// A delta of the wrong shape for the base leaves the base unchanged.
pub open spec fn spec_apply(base: ComponentValue, delta: Delta) -> ComponentValue {
    match (base, delta) {
        (ComponentValue::Translation { x, y }, Delta::Shift { dx, dy }) => {
            ComponentValue::Translation { x: (x + dx) as i64, y: (y + dy) as i64 }
        },
        (ComponentValue::Angle { deg }, Delta::Turn { dd }) => {
            ComponentValue::Angle { deg: spec_wrap_angle(deg + dd) as u32 }
        },
        (_, Delta::Full { value }) => value,
        _ => base,
    }
}

impl Delta {
    /// Deltas produced by `diff` on valid values satisfy these bounds; they
    /// keep `apply_diff` free of overflow.
    pub open spec fn valid(self) -> bool {
        match self {
            Delta::Shift { dx, dy } => {
                &&& -2 * COORD_LIMIT <= dx <= 2 * COORD_LIMIT
                &&& -2 * COORD_LIMIT <= dy <= 2 * COORD_LIMIT
            },
            Delta::Turn { dd } => -(HALF_TURN_DEGREES as int) < dd <= HALF_TURN_DEGREES,
            Delta::Full { .. } => true,
        }
    }
}

/// The neutral starting value for a component kind: the additive identity
/// of its delta.
pub open spec fn spec_base_value(kind: ComponentKind) -> ComponentValue {
    match kind {
        ComponentKind::Translation => ComponentValue::Translation { x: 0, y: 0 },
        ComponentKind::Angle => ComponentValue::Angle { deg: 0 },
        ComponentKind::Discrete => ComponentValue::Discrete { code: 0 },
    }
}

pub fn base_value(kind: ComponentKind) -> (r: ComponentValue)
    ensures
        r == spec_base_value(kind),
        r.valid(),
{
    match kind {
        ComponentKind::Translation => ComponentValue::Translation { x: 0, y: 0 },
        ComponentKind::Angle => ComponentValue::Angle { deg: 0 },
        ComponentKind::Discrete => ComponentValue::Discrete { code: 0 },
    }
}

impl ComponentValue {
    /// Runtime check of well-formedness, for values that arrive from
    /// outside the verified core.
    pub fn is_valid(&self) -> (r: bool)
        ensures
            r == self.valid(),
    {
        match self {
            ComponentValue::Translation { x, y } => {
                -COORD_LIMIT <= *x && *x <= COORD_LIMIT && -COORD_LIMIT <= *y && *y <= COORD_LIMIT
            },
            ComponentValue::Angle { deg } => *deg < TURN_DEGREES,
            ComponentValue::Discrete { .. } => true,
        }
    }

    /// The delta that takes `self` to `new_value`.
    pub fn diff(&self, new_value: &ComponentValue) -> (r: Delta)
        requires
            self.valid(),
            new_value.valid(),
        ensures
            r == spec_diff(*self, *new_value),
            r.valid(),
    {
        match (self, new_value) {
            (
                ComponentValue::Translation { x: x1, y: y1 },
                ComponentValue::Translation { x: x2, y: y2 },
            ) => Delta::Shift { dx: *x2 - *x1, dy: *y2 - *y1 },
            (ComponentValue::Angle { deg: a }, ComponentValue::Angle { deg: b }) => {
                let raw: u32 = if *b >= *a {
                    *b - *a
                } else {
                    *b + TURN_DEGREES - *a
                };
                let dd: i32 = if raw > HALF_TURN_DEGREES {
                    raw as i32 - TURN_DEGREES as i32
                } else {
                    raw as i32
                };
                Delta::Turn { dd }
            },
            _ => Delta::Full { value: *new_value },
        }
    }

    /// Patch `self` with a delta: addition for translations, wrapped
    /// addition for angles, replacement for a full delta.
    pub fn apply_diff(&mut self, delta: &Delta)
        requires
            old(self).valid(),
            delta.valid(),
        ensures
            *final(self) == spec_apply(*old(self), *delta),
    {
        match (&*self, delta) {
            (ComponentValue::Translation { x, y }, Delta::Shift { dx, dy }) => {
                *self = ComponentValue::Translation { x: *x + *dx, y: *y + *dy };
            },
            (ComponentValue::Angle { deg }, Delta::Turn { dd }) => {
                let t: i64 = *deg as i64 + *dd as i64;
                let wrapped: i64 = if t < 0 {
                    t + TURN_DEGREES as i64
                } else if t >= TURN_DEGREES as i64 {
                    t - TURN_DEGREES as i64
                } else {
                    t
                };
                *self = ComponentValue::Angle { deg: wrapped as u32 };
            },
            (_, Delta::Full { value }) => {
                *self = *value;
            },
            _ => {},
        }
    }
}

/// Runtime check of observational equality within a tolerance.
pub fn values_close(a: &ComponentValue, b: &ComponentValue, tol: u64) -> (r: bool)
    ensures
        r == a.spec_close(*b, tol),
{
    match (*a, *b) {
        (
            ComponentValue::Translation { x: x1, y: y1 },
            ComponentValue::Translation { x: x2, y: y2 },
        ) => {
            let dx: i128 = x2 as i128 - x1 as i128;
            let dy: i128 = y2 as i128 - y1 as i128;
            let adx: i128 = if dx < 0 {
                -dx
            } else {
                dx
            };
            let ady: i128 = if dy < 0 {
                -dy
            } else {
                dy
            };
            adx <= tol as i128 && ady <= tol as i128
        },
        (ComponentValue::Angle { deg: a1 }, ComponentValue::Angle { deg: b1 }) => {
            let raw: i64 = if b1 >= a1 {
                (b1 - a1) as i64
            } else {
                b1 as i64 + TURN_DEGREES as i64 - a1 as i64
            };
            let dd: i64 = if raw > HALF_TURN_DEGREES as i64 {
                raw - TURN_DEGREES as i64
            } else {
                raw
            };
            let mag: i64 = if dd < 0 {
                -dd
            } else {
                dd
            };
            (mag as u128) <= (tol as u128)
        },
        (ComponentValue::Discrete { code: c1 }, ComponentValue::Discrete { code: c2 }) => c1 == c2,
        _ => false,
    }
}

/// Diff/patch round trip: patching `a` with `diff(a, b)` yields exactly
/// `b`, for every pair of valid component values.
pub proof fn lemma_diff_roundtrip(a: ComponentValue, b: ComponentValue)
    requires
        a.valid(),
        b.valid(),
    ensures
        spec_apply(a, spec_diff(a, b)) == b,
{
}

} // verus!
