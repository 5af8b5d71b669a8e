use lightyear::diff::ComponentValue;
use lightyear::predict::{
    InputCommand, IntegratorStep, Predictor, ReconcileOutcome, SimulationStep,
};

fn tr(x: i64) -> ComponentValue {
    ComponentValue::Translation { x, y: 0 }
}

fn predicted_through_ten() -> Predictor {
    let mut p = Predictor::new(32, tr(0), 0);
    for t in 1..=10u64 {
        p.record_input(t, InputCommand { dx: 1, dy: 0 }).unwrap();
        p.advance(&IntegratorStep);
    }
    p
}

#[test]
fn advancing_integrates_recorded_inputs() {
    let p = predicted_through_ten();
    assert_eq!(p.current_tick, 10);
    for t in 1..=10u64 {
        assert_eq!(p.history.get(t), Some(tr(t as i64)));
    }
}

#[test]
fn advancing_without_input_uses_neutral_input() {
    let mut p = Predictor::new(8, tr(5), 0);
    p.advance(&IntegratorStep);
    assert_eq!(p.history.get(1), Some(tr(5)));
}

#[test]
fn rollback_resimulates_with_recorded_inputs() {
    // Predicted values at ticks 1..10; a differing confirmed value for
    // tick 5 arrives: the buffer is rewritten from tick 5 and ticks 6..10
    // are resimulated from the confirmed value with the recorded inputs.
    let mut p = predicted_through_ten();
    let confirmed = tr(100);
    let outcome = p.reconcile(5, confirmed, 0, &IntegratorStep);
    assert_eq!(outcome, ReconcileOutcome::RolledBack { from: 5 });
    assert_eq!(p.current_tick, 10);
    // Ticks before the correction are untouched.
    for t in 1..=4u64 {
        assert_eq!(p.history.get(t), Some(tr(t as i64)));
    }
    // The corrected tick holds the confirmed value.
    assert_eq!(p.history.get(5), Some(confirmed));
    // Ticks 6..10 equal resimulating from the confirmed value.
    let mut state = confirmed;
    for t in 6..=10u64 {
        state = IntegratorStep.step(state, InputCommand { dx: 1, dy: 0 }, t);
        assert_eq!(p.history.get(t), Some(state));
        assert_eq!(p.history.get(t), Some(tr(100 + (t as i64 - 5))));
    }
}

#[test]
fn matching_confirmation_changes_nothing() {
    // Reconciliation idempotence: the confirmed value equals the buffered
    // prediction, so no resimulation happens and the buffer is unchanged.
    let mut p = predicted_through_ten();
    let outcome = p.reconcile(5, tr(5), 0, &IntegratorStep);
    assert_eq!(outcome, ReconcileOutcome::NoChange);
    for t in 1..=10u64 {
        assert_eq!(p.history.get(t), Some(tr(t as i64)));
    }
    assert_eq!(p.current_tick, 10);
}

#[test]
fn confirmation_within_tolerance_changes_nothing() {
    let mut p = predicted_through_ten();
    let outcome = p.reconcile(5, tr(7), 2, &IntegratorStep);
    assert_eq!(outcome, ReconcileOutcome::NoChange);
    assert_eq!(p.history.get(5), Some(tr(5)));
    // One past the tolerance diverges.
    let outcome = p.reconcile(5, tr(8), 2, &IntegratorStep);
    assert_eq!(outcome, ReconcileOutcome::RolledBack { from: 5 });
    assert_eq!(p.history.get(5), Some(tr(8)));
}

#[test]
fn correction_older_than_history_is_dropped() {
    let mut p = predicted_through_ten();
    // Nothing was ever recorded for tick 0.
    let outcome = p.reconcile(0, tr(42), 0, &IntegratorStep);
    assert_eq!(outcome, ReconcileOutcome::Stale);
    assert_eq!(p.history.get(1), Some(tr(1)));
    assert_eq!(p.current_tick, 10);

    // With a small buffer, early ticks are evicted and a correction for
    // them is out of window.
    let mut small = Predictor::new(4, tr(0), 0);
    for t in 1..=10u64 {
        small.record_input(t, InputCommand { dx: 1, dy: 0 }).unwrap();
        small.advance(&IntegratorStep);
    }
    let outcome = small.reconcile(2, tr(9), 0, &IntegratorStep);
    assert_eq!(outcome, ReconcileOutcome::Stale);
}

#[test]
fn server_ahead_snaps_the_predicted_tick_forward() {
    let mut p = predicted_through_ten();
    let outcome = p.reconcile(15, tr(50), 0, &IntegratorStep);
    assert_eq!(outcome, ReconcileOutcome::SnappedForward);
    assert_eq!(p.current_tick, 15);
    assert_eq!(p.history.get(15), Some(tr(50)));
    assert_eq!(p.history.get(10), Some(tr(10)));
}

#[test]
fn force_resync_clears_history() {
    let mut p = predicted_through_ten();
    p.force_resync(7, tr(123));
    assert_eq!(p.history.len(), 1);
    assert_eq!(p.history.get(7), Some(tr(123)));
    assert_eq!(p.current_tick, 10);
}

#[test]
fn integrator_clamps_at_the_coordinate_limit() {
    let limit = lightyear::diff::COORD_LIMIT;
    let near = ComponentValue::Translation { x: limit - 1, y: 0 };
    let stepped = IntegratorStep.step(near, InputCommand { dx: 5, dy: 0 }, 1);
    assert_eq!(stepped, ComponentValue::Translation { x: limit, y: 0 });
}
