//! Prediction and rollback engine.
//!
//! A predicted entity advances by local simulation at the fixed clock rate,
//! pushing each step's result into its history buffer. When a confirmed
//! snapshot arrives for an already-simulated tick, the engine compares it
//! with the buffered prediction: if they agree within tolerance the
//! correction is discarded; if they diverge, the history is rewritten from
//! the corrected tick and the simulation is replayed forward with the
//! recorded inputs. Replay is well defined because the step function is a
//! pure function of the prior state, the recorded input and the tick.

use crate::diff::{ComponentValue, COORD_LIMIT};
use crate::errors::SyncError;
use crate::history::{
    keep_newest, spec_drop_from, spec_lookup, spec_truncate_after, HistoryBuffer, HistoryEntry,
    ticks_sorted,
};
use vstd::prelude::*;

verus! {

/// The input recorded for one tick of local simulation, replayed during
/// rollback.
#[derive(Debug, Clone, Copy, PartialEq, Eq, Structural)]
pub struct InputCommand {
    pub dx: i64,
    pub dy: i64,
}

/// The input used for a tick with no recorded command.
pub open spec fn spec_neutral_input() -> InputCommand {
    InputCommand { dx: 0, dy: 0 }
}

/// The recorded input for `tick`, or the neutral input when none was
/// recorded.
pub open spec fn spec_input_at(inputs: Seq<HistoryEntry<InputCommand>>, tick: u64) -> InputCommand {
    match spec_lookup(inputs, tick) {
        Some(i) => i,
        None => spec_neutral_input(),
    }
}

/// The simulation-logic collaborator: a pure step function from state,
/// recorded input and tick to the next state. It must be deterministic
/// given identical state and input; `step_spec` is that mathematical
/// function and `step` is bound to it, which is what makes rollback replay
/// reproduce the original stepping.
pub trait SimulationStep {
    spec fn step_spec(&self, state: ComponentValue, input: InputCommand, tick: u64)
        -> ComponentValue;

    fn step(&self, state: ComponentValue, input: InputCommand, tick: u64) -> (r: ComponentValue)
        ensures
            r == self.step_spec(state, input, tick),
    ;
}

/// The state reached by stepping from `confirmed` at tick `base` forward
/// to tick `t`, feeding each tick its recorded input.
pub open spec fn spec_replay<S: SimulationStep>(
    stepper: &S,
    confirmed: ComponentValue,
    inputs: Seq<HistoryEntry<InputCommand>>,
    base: u64,
    t: u64,
) -> ComponentValue
    decreases t - base,
{
    if t <= base {
        confirmed
    } else {
        stepper.step_spec(
            spec_replay(stepper, confirmed, inputs, base, (t - 1) as u64),
            spec_input_at(inputs, t),
            t,
        )
    }
}

/// The history entries written by replaying ticks `base + 1 ..= t`.
pub open spec fn spec_replay_entries<S: SimulationStep>(
    stepper: &S,
    confirmed: ComponentValue,
    inputs: Seq<HistoryEntry<InputCommand>>,
    base: u64,
    t: u64,
) -> Seq<HistoryEntry<ComponentValue>>
    decreases t - base,
{
    if t <= base {
        Seq::empty()
    } else {
        spec_replay_entries(stepper, confirmed, inputs, base, (t - 1) as u64).push(
            HistoryEntry { tick: t, value: spec_replay(stepper, confirmed, inputs, base, t) },
        )
    }
}

/// How a confirmed snapshot was reconciled with the predicted history.
#[derive(Debug, Clone, Copy, PartialEq, Eq, Structural)]
pub enum ReconcileOutcome {
    /// The buffered prediction agreed with the confirmed value within
    /// tolerance; nothing changed.
    NoChange,
    /// The prediction diverged: history was rewritten at `from` and
    /// replayed forward to the current tick.
    RolledBack { from: u64 },
    /// The confirmed tick is no longer covered by the retained history;
    /// the correction was dropped as a soft error.
    Stale,
    /// The confirmed tick was ahead of the predicted tick; the predicted
    /// tick snapped forward to match.
    SnappedForward,
}

/// Per-entity prediction state: the predicted history, the recorded
/// inputs, the current predicted tick, and the neutral value to step from
/// before any snapshot exists.
pub struct Predictor {
    pub history: HistoryBuffer<ComponentValue>,
    pub inputs: HistoryBuffer<InputCommand>,
    pub current_tick: u64,
    pub base: ComponentValue,
}

impl Predictor {
    pub open spec fn wf(self) -> bool {
        &&& self.history.wf()
        &&& self.inputs.wf()
        &&& (self.history@.len() > 0 ==> self.history@.last().tick <= self.current_tick)
    }

    pub fn new(capacity: usize, base: ComponentValue, start_tick: u64) -> (r: Predictor)
        requires
            capacity >= 1,
        ensures
            r.wf(),
            r.history@ == Seq::<HistoryEntry<ComponentValue>>::empty(),
            r.inputs@ == Seq::<HistoryEntry<InputCommand>>::empty(),
            r.current_tick == start_tick,
            r.base == base,
            r.history.spec_capacity() == capacity,
    {
        Predictor {
            history: HistoryBuffer::new(capacity),
            inputs: HistoryBuffer::new(capacity),
            current_tick: start_tick,
            base,
        }
    }

    /// Record the local input for a tick, to be replayed during rollback.
    pub fn record_input(&mut self, tick: u64, input: InputCommand) -> (r: Result<(), SyncError>)
        requires
            old(self).wf(),
        ensures
            final(self).wf(),
            final(self).history == old(self).history,
            final(self).current_tick == old(self).current_tick,
            final(self).base == old(self).base,
            match r {
                Ok(()) => final(self).inputs@ == keep_newest(
                    old(self).inputs@.push(HistoryEntry { tick, value: input }),
                    old(self).inputs.spec_capacity() as int,
                ),
                Err(e) => {
                    &&& e == SyncError::OutOfOrderTick
                    &&& final(self).inputs@ == old(self).inputs@
                },
            },
    {
        self.inputs.push(tick, input)
    }

    /// Advance the predicted tick by one local simulation step and push
    /// the stepped value into the history.
    pub fn advance<S: SimulationStep>(&mut self, stepper: &S)
        requires
            old(self).wf(),
            old(self).current_tick < u64::MAX,
        ensures
            final(self).wf(),
            final(self).current_tick == old(self).current_tick + 1,
            final(self).inputs == old(self).inputs,
            final(self).base == old(self).base,
            ({
                let t = (old(self).current_tick + 1) as u64;
                let prev = if old(self).history@.len() > 0 {
                    old(self).history@.last().value
                } else {
                    old(self).base
                };
                let e = HistoryEntry {
                    tick: t,
                    value: stepper.step_spec(prev, spec_input_at(old(self).inputs@, t), t),
                };
                final(self).history@ == keep_newest(
                    old(self).history@.push(e),
                    old(self).history.spec_capacity() as int,
                )
            }),
    {
        let t = self.current_tick + 1;
        let prev = match self.history.newest() {
            Some(e) => e.value,
            None => self.base,
        };
        let input = match self.inputs.get(t) {
            Some(i) => i,
            None => InputCommand { dx: 0, dy: 0 },
        };
        let next = stepper.step(prev, input, t);
        let r = self.history.push(t, next);
        match r {
            Ok(()) => {},
            Err(_) => {
                proof {
                    assert(false);
                }
            },
        }
        self.current_tick = t;
        proof {
            let pushed = old(self).history@.push(HistoryEntry { tick: t, value: next });
            if pushed.len() > self.history.spec_capacity() {
                assert(self.history@.last() == pushed.last());
            }
        }
    }

    /// Reconcile a confirmed snapshot with the predicted history.
    ///
    /// Within tolerance the correction is discarded and nothing changes.
    /// On divergence the entry at the confirmed tick is replaced, later
    /// entries are truncated, and the simulation is replayed once per tick
    /// up to the current predicted tick with the recorded inputs. A
    /// confirmed tick ahead of the predicted tick snaps the predicted tick
    /// forward; one older than the retained history is dropped.
    pub fn reconcile<S: SimulationStep>(
        &mut self,
        confirmed_tick: u64,
        confirmed: ComponentValue,
        tolerance: u64,
        stepper: &S,
    ) -> (r: ReconcileOutcome)
        requires
            old(self).wf(),
        ensures
            final(self).wf(),
            final(self).inputs == old(self).inputs,
            final(self).base == old(self).base,
            final(self).history.spec_capacity() == old(self).history.spec_capacity(),
            match r {
                ReconcileOutcome::SnappedForward => {
                    &&& confirmed_tick > old(self).current_tick
                    &&& final(self).current_tick == confirmed_tick
                    &&& final(self).history@ == keep_newest(
                        old(self).history@.push(
                            HistoryEntry { tick: confirmed_tick, value: confirmed },
                        ),
                        old(self).history.spec_capacity() as int,
                    )
                },
                ReconcileOutcome::Stale => {
                    &&& confirmed_tick <= old(self).current_tick
                    &&& spec_lookup(old(self).history@, confirmed_tick) is None
                    &&& *final(self) == *old(self)
                },
                ReconcileOutcome::NoChange => {
                    &&& confirmed_tick <= old(self).current_tick
                    &&& spec_lookup(old(self).history@, confirmed_tick) matches Some(b)
                        && b.spec_close(confirmed, tolerance)
                    &&& *final(self) == *old(self)
                },
                ReconcileOutcome::RolledBack { from } => {
                    &&& from == confirmed_tick
                    &&& confirmed_tick <= old(self).current_tick
                    &&& spec_lookup(old(self).history@, confirmed_tick) matches Some(b)
                        && !b.spec_close(confirmed, tolerance)
                    &&& final(self).current_tick == old(self).current_tick
                    &&& final(self).history@ == keep_newest(
                        spec_drop_from(old(self).history@, confirmed_tick).push(
                            HistoryEntry { tick: confirmed_tick, value: confirmed },
                        ) + spec_replay_entries(
                            stepper,
                            confirmed,
                            old(self).inputs@,
                            confirmed_tick,
                            old(self).current_tick,
                        ),
                        old(self).history.spec_capacity() as int,
                    )
                },
            },
    {
        if confirmed_tick > self.current_tick {
            let r = self.history.push(confirmed_tick, confirmed);
            match r {
                Ok(()) => {},
                Err(_) => {
                    proof {
                        assert(false);
                    }
                },
            }
            self.current_tick = confirmed_tick;
            proof {
                let pushed = old(self).history@.push(
                    HistoryEntry { tick: confirmed_tick, value: confirmed },
                );
                if pushed.len() > self.history.spec_capacity() {
                    assert(self.history@.last() == pushed.last());
                }
            }
            return ReconcileOutcome::SnappedForward;
        }
        let buffered = match self.history.get(confirmed_tick) {
            None => {
                return ReconcileOutcome::Stale;
            },
            Some(b) => b,
        };
        if crate::diff::values_close(&buffered, &confirmed, tolerance) {
            return ReconcileOutcome::NoChange;
        }
        // Divergence: rewrite the entry at the confirmed tick, drop what
        // follows, and replay forward with the recorded inputs.
        let ghost pre = self.history@;
        let ghost cap = self.history.spec_capacity() as int;
        let ghost recorded = self.inputs@;
        let current = self.current_tick;
        if confirmed_tick == 0 {
            self.history.clear();
            proof {
                lemma_drop_from_zero(pre);
            }
        } else {
            self.history.truncate_after(confirmed_tick - 1);
            proof {
                lemma_truncate_is_drop_from(pre, confirmed_tick);
            }
        }
        proof {
            lemma_drop_from_last_below(pre, confirmed_tick);
        }
        let r = self.history.push(confirmed_tick, confirmed);
        match r {
            Ok(()) => {},
            Err(_) => {
                proof {
                    assert(false);
                }
            },
        }
        let ghost rewritten = spec_drop_from(pre, confirmed_tick).push(
            HistoryEntry { tick: confirmed_tick, value: confirmed },
        );
        proof {
            assert(self.history@ == keep_newest(rewritten, cap)) by {
                assert(spec_drop_from(pre, confirmed_tick).push(
                    HistoryEntry { tick: confirmed_tick, value: confirmed },
                ) =~= rewritten);
            }
            assert(rewritten + spec_replay_entries(
                stepper,
                confirmed,
                recorded,
                confirmed_tick,
                confirmed_tick,
            ) =~= rewritten);
            if rewritten.len() > cap {
                assert(keep_newest(rewritten, cap).last() == rewritten.last());
            }
        }
        let mut state = confirmed;
        let mut t = confirmed_tick;
        while t < current
            invariant
                self.wf(),
                self.history.spec_capacity() as int == cap,
                cap >= 1,
                self.inputs == old(self).inputs,
                self.base == old(self).base,
                self.current_tick == current,
                recorded == self.inputs@,
                confirmed_tick <= t <= current,
                state == spec_replay(stepper, confirmed, recorded, confirmed_tick, t),
                self.history@ == keep_newest(
                    rewritten + spec_replay_entries(
                        stepper,
                        confirmed,
                        recorded,
                        confirmed_tick,
                        t,
                    ),
                    cap,
                ),
                self.history@.len() > 0,
                self.history@.last().tick == t,
            decreases current - t,
        {
            let next_tick = t + 1;
            let input = match self.inputs.get(next_tick) {
                Some(i) => i,
                None => InputCommand { dx: 0, dy: 0 },
            };
            state = stepper.step(state, input, next_tick);
            let ghost before = rewritten + spec_replay_entries(
                stepper,
                confirmed,
                recorded,
                confirmed_tick,
                t,
            );
            let ghost e = HistoryEntry { tick: next_tick, value: state };
            let r = self.history.push(next_tick, state);
            match r {
                Ok(()) => {},
                Err(_) => {
                    proof {
                        assert(false);
                    }
                },
            }
            proof {
                crate::history::lemma_keep_newest_push(before, e, cap);
                assert(before.push(e) =~= rewritten + spec_replay_entries(
                    stepper,
                    confirmed,
                    recorded,
                    confirmed_tick,
                    next_tick,
                ));
                let grown = before.push(e);
                if grown.len() > cap {
                    assert(keep_newest(grown, cap).last() == grown.last());
                }
            }
            t = next_tick;
        }
        ReconcileOutcome::RolledBack { from: confirmed_tick }
    }

    /// Force-resync to a confirmed value with the history cleared: the
    /// recovery for an unrecoverable replay divergence.
    pub fn force_resync(&mut self, confirmed_tick: u64, confirmed: ComponentValue)
        requires
            old(self).wf(),
        ensures
            final(self).wf(),
            final(self).inputs == old(self).inputs,
            final(self).base == old(self).base,
            final(self).history@ == seq![HistoryEntry { tick: confirmed_tick, value: confirmed }],
            final(self).current_tick == if confirmed_tick > old(self).current_tick {
                confirmed_tick
            } else {
                old(self).current_tick
            },
    {
        self.history.clear();
        let r = self.history.push(confirmed_tick, confirmed);
        match r {
            Ok(()) => {},
            Err(_) => {
                proof {
                    assert(false);
                }
            },
        }
        if confirmed_tick > self.current_tick {
            self.current_tick = confirmed_tick;
        }
        proof {
            assert(self.history@ =~= seq![
                HistoryEntry { tick: confirmed_tick, value: confirmed },
            ]);
        }
    }
}

/// A sample simulation-logic collaborator: an integrator that treats the
/// recorded input as a per-tick displacement and clamps coordinates to
/// the valid range. Angular and discrete state pass through unchanged.
#[derive(Debug, Clone, Copy, PartialEq, Eq, Structural)]
pub struct IntegratorStep;

/// Clamps a coordinate into the valid range.
pub open spec fn spec_clamp_coord(v: int) -> i64 {
    if v < -COORD_LIMIT {
        (-COORD_LIMIT) as i64
    } else if v > COORD_LIMIT {
        COORD_LIMIT
    } else {
        v as i64
    }
}

fn clamp_coord(v: i128) -> (r: i64)
    ensures
        r == spec_clamp_coord(v as int),
{
    if v < -(COORD_LIMIT as i128) {
        -COORD_LIMIT
    } else if v > COORD_LIMIT as i128 {
        COORD_LIMIT
    } else {
        v as i64
    }
}

impl SimulationStep for IntegratorStep {
    open spec fn step_spec(
        &self,
        state: ComponentValue,
        input: InputCommand,
        tick: u64,
    ) -> ComponentValue {
        match state {
            ComponentValue::Translation { x, y } => (ComponentValue::Translation {
                x: spec_clamp_coord(x + input.dx),
                y: spec_clamp_coord(y + input.dy),
            }),
            _ => state,
        }
    }

    fn step(&self, state: ComponentValue, input: InputCommand, tick: u64) -> (r: ComponentValue) {
        match state {
            ComponentValue::Translation { x, y } => {
                let wx: i128 = x as i128 + input.dx as i128;
                let wy: i128 = y as i128 + input.dy as i128;
                ComponentValue::Translation { x: clamp_coord(wx), y: clamp_coord(wy) }
            },
            _ => state,
        }
    }
}

/// The result of dropping every entry with tick at least `t` is a prefix
/// of the original sequence.
proof fn lemma_drop_from_prefix<V>(s: Seq<HistoryEntry<V>>, t: u64)
    ensures
        spec_drop_from(s, t).len() <= s.len(),
        forall|i: int|
            0 <= i < spec_drop_from(s, t).len() ==> #[trigger] spec_drop_from(s, t)[i] == s[i],
    decreases s.len(),
{
    if s.len() > 0 && s.last().tick >= t {
        lemma_drop_from_prefix(s.drop_last(), t);
    }
}

/// Index-wise description of the replay entries: entry `i` carries tick
/// `base + 1 + i` and the state replayed up to that tick.
pub proof fn lemma_replay_entries_index<S: SimulationStep>(
    stepper: &S,
    confirmed: ComponentValue,
    inputs: Seq<HistoryEntry<InputCommand>>,
    base: u64,
    t: u64,
)
    requires
        base <= t,
    ensures
        spec_replay_entries(stepper, confirmed, inputs, base, t).len() == t - base,
        forall|i: int|
            0 <= i < t - base ==> {
                let e = #[trigger] spec_replay_entries(stepper, confirmed, inputs, base, t)[i];
                e.tick == base + 1 + i && e.value == spec_replay(
                    stepper,
                    confirmed,
                    inputs,
                    base,
                    (base + 1 + i) as u64,
                )
            },
    decreases t - base,
{
    if t > base {
        lemma_replay_entries_index(stepper, confirmed, inputs, base, (t - 1) as u64);
    }
}

/// Rollback correctness: the history rewritten by a divergent correction
/// at tick `t0` (the shape `reconcile` ensures) holds the confirmed value
/// at `t0` and, at every tick `t` in `(t0, current]`, exactly the value
/// obtained by resimulating from the confirmed value with the recorded
/// inputs for ticks `t0 + 1 ..= t` — provided the rewritten window fits
/// the buffer's capacity, in which case nothing was evicted.
pub proof fn lemma_rollback_replay<S: SimulationStep>(
    stepper: &S,
    pre: Seq<HistoryEntry<ComponentValue>>,
    inputs: Seq<HistoryEntry<InputCommand>>,
    confirmed: ComponentValue,
    t0: u64,
    current: u64,
    cap: int,
)
    requires
        ticks_sorted(pre),
        t0 <= current,
        spec_drop_from(pre, t0).len() + 1 + current - t0 <= cap,
    ensures
        ({
            let s = spec_drop_from(pre, t0).push(HistoryEntry { tick: t0, value: confirmed })
                + spec_replay_entries(stepper, confirmed, inputs, t0, current);
            &&& keep_newest(s, cap) == s
            &&& spec_lookup(s, t0) == Some(confirmed)
            &&& forall|t: u64|
                t0 < t <= current ==> spec_lookup(s, t) == Some(
                    spec_replay(stepper, confirmed, inputs, t0, t),
                )
        }),
{
    let pre2 = spec_drop_from(pre, t0);
    let reps = spec_replay_entries(stepper, confirmed, inputs, t0, current);
    let s = pre2.push(HistoryEntry { tick: t0, value: confirmed }) + reps;
    lemma_drop_from_prefix(pre, t0);
    lemma_drop_from_last_below(pre, t0);
    lemma_replay_entries_index(stepper, confirmed, inputs, t0, current);
    assert forall|i: int| 0 <= i < pre2.len() implies pre2[i].tick < t0 by {
        if i < pre2.len() - 1 {
            assert(pre[i].tick < pre[pre2.len() - 1].tick);
        }
    }
    assert forall|i: int| 0 <= i < s.len() implies #[trigger] s[i].tick == spec_tick_shape(
        pre2,
        t0,
        i,
    ) by {
        if i < pre2.len() {
            assert(s[i] == pre2[i]);
        } else if i == pre2.len() {
        } else {
            assert(s[i] == reps[i - pre2.len() - 1]);
        }
    }
    assert(ticks_sorted(s)) by {
        assert forall|i: int, j: int|
            #![trigger s[i].tick, s[j].tick]
            0 <= i < j < s.len() implies s[i].tick < s[j].tick by {
            assert(s[i].tick == spec_tick_shape(pre2, t0, i));
            assert(s[j].tick == spec_tick_shape(pre2, t0, j));
        }
    }
    assert(s[pre2.len() as int].tick == t0);
    assert(s[pre2.len() as int].value == confirmed);
    crate::history::lemma_lookup_at_index(s, pre2.len() as int, t0);
    assert forall|t: u64| t0 < t <= current implies spec_lookup(s, t) == Some(
        spec_replay(stepper, confirmed, inputs, t0, t),
    ) by {
        let i = pre2.len() + 1 + (t - t0 - 1);
        assert(s[i] == reps[t - t0 - 1]);
        assert(s[i].tick == t);
        assert(s[i].value == spec_replay(stepper, confirmed, inputs, t0, t));
        crate::history::lemma_lookup_at_index(s, i, t);
    }
}

/// The tick that index `i` of a rewritten history must carry: a retained
/// tick below `t0`, then `t0` itself, then the replayed ticks in order.
pub open spec fn spec_tick_shape(
    pre2: Seq<HistoryEntry<ComponentValue>>,
    t0: u64,
    i: int,
) -> u64 {
    if i < pre2.len() {
        pre2[i].tick
    } else {
        (t0 + (i - pre2.len())) as u64
    }
}

/// Dropping everything from tick 0 on empties the sequence.
proof fn lemma_drop_from_zero<V>(s: Seq<HistoryEntry<V>>)
    ensures
        spec_drop_from(s, 0) == Seq::<HistoryEntry<V>>::empty(),
    decreases s.len(),
{
    if s.len() > 0 {
        lemma_drop_from_zero(s.drop_last());
    }
    assert(spec_drop_from(s, 0) =~= Seq::<HistoryEntry<V>>::empty());
}

/// Truncating after `t - 1` is the same as dropping every entry with tick
/// at least `t`.
proof fn lemma_truncate_is_drop_from<V>(s: Seq<HistoryEntry<V>>, t: u64)
    requires
        t >= 1,
    ensures
        spec_truncate_after(s, (t - 1) as u64) == spec_drop_from(s, t),
    decreases s.len(),
{
    if s.len() > 0 {
        lemma_truncate_is_drop_from(s.drop_last(), t);
    }
}

/// After dropping every entry with tick at least `t`, the last remaining
/// entry (if any) has tick strictly below `t`.
proof fn lemma_drop_from_last_below<V>(s: Seq<HistoryEntry<V>>, t: u64)
    ensures
        spec_drop_from(s, t).len() > 0 ==> spec_drop_from(s, t).last().tick < t,
    decreases s.len(),
{
    if s.len() > 0 {
        lemma_drop_from_last_below(s.drop_last(), t);
    }
}

} // verus!
