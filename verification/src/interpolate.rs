//! Interpolation engine.
//!
//! Interpolated entities are render-only: they hold a history buffer of
//! confirmed snapshots and are drawn at a delayed render tick, blending the
//! two snapshots that bracket it. Translational quantities blend linearly;
//! rotational quantities blend along the shortest rotational path. When the
//! confirmed counterpart of an interpolated entity despawns, the entity is
//! kept until its buffer has drained to at most one snapshot, so a remote
//! object never pops out mid-interpolation.

use crate::diff::{spec_angle_delta, spec_wrap_angle, ComponentValue, HALF_TURN_DEGREES,
    TURN_DEGREES};
use crate::history::{spec_ceil_entry, spec_drain, spec_floor_entry, HistoryBuffer, HistoryEntry};
use vstd::arithmetic::div_mod::{lemma_div_is_ordered, lemma_div_multiples_vanish,
    lemma_div_pos_is_pos};
use vstd::arithmetic::mul::lemma_mul_inequality;
use vstd::prelude::*;

verus! {

/// A delta `d` scaled by the factor `num / den`, truncated toward zero.
pub open spec fn spec_scaled(d: int, num: int, den: int) -> int {
    if d >= 0 {
        (d * num) / den
    } else {
        -(((-d) * num) / den)
    }
}

/// Scaling by a factor in `[0, 1]` keeps the result between `0` and the
/// delta, and the factors `0` and `1` reproduce the endpoints exactly.
pub proof fn lemma_scaled_bounds(d: int, num: int, den: int)
    requires
        0 <= num <= den,
        1 <= den,
    ensures
        d >= 0 ==> 0 <= spec_scaled(d, num, den) <= d,
        d < 0 ==> d <= spec_scaled(d, num, den) <= 0,
        num == 0 ==> spec_scaled(d, num, den) == 0,
        num == den ==> spec_scaled(d, num, den) == d,
{
    let a = if d >= 0 {
        d
    } else {
        -d
    };
    lemma_mul_inequality(num, den, a);
    lemma_div_is_ordered(a * num, a * den, den);
    lemma_div_multiples_vanish(a, den);
    lemma_div_pos_is_pos(a * num, den);
    if num == 0 {
        assert(a * 0 == 0);
        lemma_div_multiples_vanish(0, den);
    }
    if num == den {
        assert(a * den == den * a);
    }
    assert(a * den == den * a);
}

/// The blend of `start` and `end` at factor `num / den`. Translations
/// blend coordinate-wise; angles blend along the shortest rotational
/// path; discrete state (or a mismatched pair) holds `start` until the
/// factor reaches one.
pub open spec fn spec_lerp(
    start: ComponentValue,
    end: ComponentValue,
    num: int,
    den: int,
) -> ComponentValue {
    match (start, end) {
        (
            ComponentValue::Translation { x: x1, y: y1 },
            ComponentValue::Translation { x: x2, y: y2 },
        ) => (ComponentValue::Translation {
            x: (x1 + spec_scaled(x2 - x1, num, den)) as i64,
            y: (y1 + spec_scaled(y2 - y1, num, den)) as i64,
        }),
        (ComponentValue::Angle { deg: a }, ComponentValue::Angle { deg: b }) => (
        ComponentValue::Angle {
            deg: spec_wrap_angle(
                a + spec_scaled(spec_angle_delta(a as int, b as int), num, den),
            ) as u32,
        }),
        _ => {
            if num == den {
                end
            } else {
                start
            }
        },
    }
}

fn scale_magnitude(mag: u64, num: u64, den: u64) -> (r: u64)
    requires
        1 <= den,
        num <= den,
        mag <= 2 * crate::diff::COORD_LIMIT,
    ensures
        r == (mag as int * num as int) / (den as int),
        r <= mag,
{
    proof {
        lemma_mul_inequality(mag as int, 2 * crate::diff::COORD_LIMIT as int, num as int);
        lemma_mul_inequality(num as int, u64::MAX as int, 2 * crate::diff::COORD_LIMIT as int);
        assert(mag as int * num as int == num as int * mag as int);
        assert(2 * crate::diff::COORD_LIMIT as int * num as int == num as int * (2
            * crate::diff::COORD_LIMIT as int));
    }
    let wide: u128 = (mag as u128 * num as u128) / den as u128;
    proof {
        lemma_mul_inequality(num as int, den as int, mag as int);
        lemma_div_is_ordered(mag as int * num as int, mag as int * den as int, den as int);
        lemma_div_multiples_vanish(mag as int, den as int);
        lemma_div_pos_is_pos(mag as int * num as int, den as int);
        assert(mag as int * den as int == den as int * mag as int);
    }
    wide as u64
}

/// Blend two component values at factor `num / den`. At factor zero the
/// result is exactly `start`; at factor one it is exactly `end`.
pub fn lerp(start: &ComponentValue, end: &ComponentValue, num: u64, den: u64) -> (r:
    ComponentValue)
    requires
        1 <= den,
        num <= den,
        start.valid(),
        end.valid(),
    ensures
        r == spec_lerp(*start, *end, num as int, den as int),
        num == 0 ==> r == *start,
        num == den ==> r == *end,
        r.valid(),
{
    match (*start, *end) {
        (
            ComponentValue::Translation { x: x1, y: y1 },
            ComponentValue::Translation { x: x2, y: y2 },
        ) => {
            proof {
                lemma_scaled_bounds(x2 - x1, num as int, den as int);
                lemma_scaled_bounds(y2 - y1, num as int, den as int);
            }
            let rx = lerp_coord(x1, x2, num, den);
            let ry = lerp_coord(y1, y2, num, den);
            ComponentValue::Translation { x: rx, y: ry }
        },
        (ComponentValue::Angle { deg: a }, ComponentValue::Angle { deg: b }) => {
            let raw: u32 = if b >= a {
                b - a
            } else {
                b + TURN_DEGREES - a
            };
            let dd: i64 = if raw > HALF_TURN_DEGREES {
                raw as i64 - TURN_DEGREES as i64
            } else {
                raw as i64
            };
            let mag: u64 = if dd < 0 {
                (-dd) as u64
            } else {
                dd as u64
            };
            let part: u64 = scale_magnitude(mag, num, den);
            proof {
                lemma_scaled_bounds(dd as int, num as int, den as int);
                assert(dd as int == spec_angle_delta(a as int, b as int));
                if num == den {
                    assert(spec_wrap_angle(a as int + spec_angle_delta(a as int, b as int))
                        == b as int);
                }
            }
            let t: i64 = if dd < 0 {
                a as i64 - part as i64
            } else {
                a as i64 + part as i64
            };
            let wrapped: i64 = if t < 0 {
                t + TURN_DEGREES as i64
            } else if t >= TURN_DEGREES as i64 {
                t - TURN_DEGREES as i64
            } else {
                t
            };
            ComponentValue::Angle { deg: wrapped as u32 }
        },
        _ => {
            if num == den {
                *end
            } else {
                *start
            }
        },
    }
}

/// The tick at which interpolated entities are drawn: the current tick
/// minus the configured interpolation delay, saturating at zero. The
/// delay is an intentional, bounded latency traded for smoothness.
pub fn render_tick(current_tick: u64, delay: u64) -> (r: u64)
    ensures
        r == if current_tick >= delay {
            (current_tick - delay) as u64
        } else {
            0u64
        },
{
    if current_tick >= delay {
        current_tick - delay
    } else {
        0
    }
}

/// The interpolation factor for a render tick inside the bracket
/// `[t0, t1]`, as the exact rational `num / den`: it always lies in
/// `[0, 1]`.
pub fn interpolation_factor(t0: u64, t1: u64, render: u64) -> (r: (u64, u64))
    requires
        t0 <= render <= t1,
        t0 < t1,
    ensures
        r.0 == render - t0,
        r.1 == t1 - t0,
        r.0 <= r.1,
        r.1 >= 1,
{
    (render - t0, t1 - t0)
}

/// A floor entry carries a tick at or before the request and is stored in
/// the sequence.
proof fn lemma_floor_entry_props<V>(s: Seq<HistoryEntry<V>>, tick: u64)
    ensures
        spec_floor_entry(s, tick) matches Some(e) ==> e.tick <= tick && exists|i: int|
            0 <= i < s.len() && s[i] == e,
    decreases s.len(),
{
    if s.len() > 0 && s.last().tick > tick {
        lemma_floor_entry_props(s.drop_last(), tick);
        match spec_floor_entry(s, tick) {
            Some(e) => {
                let i = choose|i: int| 0 <= i < s.drop_last().len() && s.drop_last()[i] == e;
                assert(s[i] == e);
            },
            None => {},
        }
    } else if s.len() > 0 {
        assert(s[s.len() - 1] == s.last());
    }
}

/// A ceiling entry carries a tick at or after the request and is stored
/// in the sequence.
proof fn lemma_ceil_entry_props<V>(s: Seq<HistoryEntry<V>>, tick: u64)
    ensures
        spec_ceil_entry(s, tick) matches Some(e) ==> e.tick >= tick && exists|i: int|
            0 <= i < s.len() && s[i] == e,
    decreases s.len(),
{
    if s.len() > 0 && s[0].tick < tick {
        lemma_ceil_entry_props(s.skip(1), tick);
        match spec_ceil_entry(s, tick) {
            Some(e) => {
                let i = choose|i: int| 0 <= i < s.skip(1).len() && s.skip(1)[i] == e;
                assert(s[i + 1] == e);
            },
            None => {},
        }
    }
}

/// The value an interpolated entity shows at `render`: the bracketing
/// snapshots blended by the elapsed fraction of the bracket; an exact hit
/// (or a render tick outside the stored range) yields the nearest stored
/// snapshot unchanged, and an empty buffer yields nothing.
pub open spec fn spec_sample(s: Seq<HistoryEntry<ComponentValue>>, render: u64) -> Option<
    ComponentValue,
> {
    match (spec_floor_entry(s, render), spec_ceil_entry(s, render)) {
        (Some(e0), Some(e1)) => {
            if e1.tick == e0.tick {
                Some(e0.value)
            } else {
                Some(
                    spec_lerp(
                        e0.value,
                        e1.value,
                        render - e0.tick,
                        e1.tick - e0.tick,
                    ),
                )
            }
        },
        (Some(e0), None) => Some(e0.value),
        (None, Some(e1)) => Some(e1.value),
        (None, None) => None,
    }
}

/// Compute the interpolated value at `render` from a buffer of confirmed
/// snapshots.
pub fn sample(buffer: &HistoryBuffer<ComponentValue>, render: u64) -> (r: Option<ComponentValue>)
    requires
        forall|i: int| 0 <= i < buffer@.len() ==> (#[trigger] buffer@[i]).value.valid(),
    ensures
        r == spec_sample(buffer@, render),
{
    let floor_e = buffer.latest_before_or_at(render);
    let ceil_e = buffer.earliest_after_or_at(render);
    proof {
        lemma_floor_entry_props(buffer@, render);
        lemma_ceil_entry_props(buffer@, render);
    }
    match (floor_e, ceil_e) {
        (Some(e0), Some(e1)) => {
            if e1.tick == e0.tick {
                Some(e0.value)
            } else {
                proof {
                    let i0 = choose|i: int| 0 <= i < buffer@.len() && buffer@[i] == e0;
                    assert(buffer@[i0].value.valid());
                    let i1 = choose|i: int| 0 <= i < buffer@.len() && buffer@[i] == e1;
                    assert(buffer@[i1].value.valid());
                }
                let (num, den) = interpolation_factor(e0.tick, e1.tick, render);
                Some(lerp(&e0.value, &e1.value, num, den))
            }
        },
        (Some(e0), None) => Some(e0.value),
        (None, Some(e1)) => Some(e1.value),
        (None, None) => None,
    }
}

/// An interpolated, render-only entity: its buffer of confirmed
/// snapshots and whether its confirmed counterpart has despawned.
pub struct InterpolatedEntity {
    pub id: u64,
    pub history: HistoryBuffer<ComponentValue>,
    pub despawn_pending: bool,
}

impl InterpolatedEntity {
    pub open spec fn wf(self) -> bool {
        self.history.wf()
    }

    pub fn new(id: u64, capacity: usize) -> (r: InterpolatedEntity)
        requires
            capacity >= 1,
        ensures
            r.wf(),
            r.id == id,
            r.history@ == Seq::<HistoryEntry<ComponentValue>>::empty(),
            !r.despawn_pending,
    {
        InterpolatedEntity { id, history: HistoryBuffer::new(capacity), despawn_pending: false }
    }

    /// The confirmed counterpart's component was removed: the interpolated
    /// copy and its snapshot history are dropped with it.
    pub fn on_confirmed_component_removed(&mut self)
        requires
            old(self).wf(),
        ensures
            final(self).wf(),
            final(self).id == old(self).id,
            final(self).despawn_pending == old(self).despawn_pending,
            final(self).history@ == Seq::<HistoryEntry<ComponentValue>>::empty(),
    {
        self.history.clear();
    }

    /// The confirmed counterpart was despawned: mark the entity, but keep
    /// it interpolating until its buffer has drained.
    pub fn on_confirmed_despawned(&mut self)
        requires
            old(self).wf(),
        ensures
            final(self).wf(),
            final(self).id == old(self).id,
            final(self).history == old(self).history,
            final(self).despawn_pending,
    {
        self.despawn_pending = true;
    }

    /// Advance interpolation to `render`, dropping consumed snapshots.
    pub fn advance_render(&mut self, render: u64)
        requires
            old(self).wf(),
        ensures
            final(self).wf(),
            final(self).id == old(self).id,
            final(self).despawn_pending == old(self).despawn_pending,
            final(self).history@ == spec_drain(old(self).history@, render),
    {
        self.history.drain_consumed(render);
    }

    /// Despawn smoothing: the entity is removed only once its confirmed
    /// counterpart is gone and its buffer has drained to at most one
    /// snapshot, so it never pops out mid-interpolation.
    pub open spec fn spec_should_despawn(self) -> bool {
        self.despawn_pending && self.history@.len() <= 1
    }

    pub fn should_despawn(&self) -> (r: bool)
        ensures
            r == self.spec_should_despawn(),
    {
        self.despawn_pending && self.history.len() <= 1
    }
}

/// The predicate a swept entity must satisfy to persist: its confirmed
/// counterpart is still present, or its buffer has not drained yet.
pub open spec fn persisting_pred() -> spec_fn(InterpolatedEntity) -> bool {
    |e: InterpolatedEntity| !e.spec_should_despawn()
}

/// The complement: the entities a sweep removes.
pub open spec fn despawning_pred() -> spec_fn(InterpolatedEntity) -> bool {
    |e: InterpolatedEntity| e.spec_should_despawn()
}

/// The identifiers of a sequence of entities, in order.
pub open spec fn entity_ids(s: Seq<InterpolatedEntity>) -> Seq<u64> {
    s.map_values(|e: InterpolatedEntity| e.id)
}

/// Despawn sweep over the interpolated entities: exactly those whose
/// confirmed counterpart is gone and whose buffer has drained to at most
/// one snapshot are removed; every other entity persists, in order. The
/// identifiers of the removed entities come back as the lifecycle
/// notification for subscribers.
pub fn interpolated_despawn(world: &mut Vec<InterpolatedEntity>) -> (removed: Vec<u64>)
    ensures
        final(world)@ == old(world)@.filter(persisting_pred()),
        removed@ == entity_ids(old(world)@.filter(despawning_pred())),
{
    let ghost pred = persisting_pred();
    let ghost dpred = despawning_pred();
    let mut kept: Vec<InterpolatedEntity> = Vec::new();
    let mut removed: Vec<u64> = Vec::new();
    let mut processed_g: Ghost<Seq<InterpolatedEntity>> = Ghost(Seq::empty());
    proof {
        reveal_with_fuel(Seq::<InterpolatedEntity>::filter, 2);
        assert(processed_g@ + world@ =~= world@);
        assert(processed_g@.filter(pred) =~= Seq::<InterpolatedEntity>::empty());
        assert(kept@ =~= processed_g@.filter(pred));
        assert(processed_g@.filter(dpred) =~= Seq::<InterpolatedEntity>::empty());
        assert(removed@ =~= entity_ids(processed_g@.filter(dpred)));
    }
    while world.len() > 0
        invariant
            old(world)@ == processed_g@ + world@,
            kept@ == processed_g@.filter(pred),
            removed@ == entity_ids(processed_g@.filter(dpred)),
            pred == persisting_pred(),
            dpred == despawning_pred(),
        decreases world@.len(),
    {
        let ghost before = world@;
        let e = world.remove(0);
        let keep = !e.should_despawn();
        proof {
            reveal_with_fuel(Seq::<InterpolatedEntity>::filter, 2);
            let grown = processed_g@.push(e);
            assert(grown.drop_last() =~= processed_g@);
            assert(grown.last() == e);
            if pred(e) {
                assert(grown.filter(pred) == processed_g@.filter(pred).push(e));
                assert(grown.filter(dpred) == processed_g@.filter(dpred));
            } else {
                assert(grown.filter(pred) == processed_g@.filter(pred));
                assert(grown.filter(dpred) == processed_g@.filter(dpred).push(e));
                assert(entity_ids(processed_g@.filter(dpred).push(e)) =~= entity_ids(
                    processed_g@.filter(dpred),
                ).push(e.id));
            }
            assert(grown + before.remove(0) =~= processed_g@ + before);
        }
        if keep {
            kept.push(e);
        } else {
            removed.push(e.id);
        }
        proof {
            processed_g@ = processed_g@.push(e);
        }
    }
    proof {
        assert(old(world)@ =~= processed_g@);
    }
    *world = kept;
    removed
}

fn lerp_coord(x1: i64, x2: i64, num: u64, den: u64) -> (r: i64)
    requires
        1 <= den,
        num <= den,
        -crate::diff::COORD_LIMIT <= x1 <= crate::diff::COORD_LIMIT,
        -crate::diff::COORD_LIMIT <= x2 <= crate::diff::COORD_LIMIT,
    ensures
        r == x1 + spec_scaled(x2 - x1, num as int, den as int),
        -crate::diff::COORD_LIMIT <= r <= crate::diff::COORD_LIMIT,
{
    let d: i64 = x2 - x1;
    let mag: u64 = if d < 0 {
        (-d) as u64
    } else {
        d as u64
    };
    let part: u64 = scale_magnitude(mag, num, den);
    proof {
        lemma_scaled_bounds(d as int, num as int, den as int);
    }
    if d < 0 {
        x1 - part as i64
    } else {
        x1 + part as i64
    }
}

} // verus!
