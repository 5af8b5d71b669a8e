use lightyear::diff::ComponentValue;
use lightyear::errors::SyncError;
use lightyear::history::HistoryBuffer;

fn tr(x: i64) -> ComponentValue {
    ComponentValue::Translation { x, y: 0 }
}

#[test]
fn push_and_get_exact() {
    let mut h: HistoryBuffer<ComponentValue> = HistoryBuffer::new(8);
    assert_eq!(h.len(), 0);
    assert!(h.push(1, tr(10)).is_ok());
    assert!(h.push(2, tr(20)).is_ok());
    assert!(h.push(3, tr(30)).is_ok());
    assert_eq!(h.len(), 3);
    assert_eq!(h.get(2), Some(tr(20)));
    assert_eq!(h.get(4), None);
    assert_eq!(h.oldest_tick(), Some(1));
    assert_eq!(h.newest_tick(), Some(3));
}

#[test]
fn out_of_order_push_is_rejected() {
    let mut h: HistoryBuffer<ComponentValue> = HistoryBuffer::new(8);
    assert!(h.push(5, tr(1)).is_ok());
    assert_eq!(h.push(5, tr(2)), Err(SyncError::OutOfOrderTick));
    assert_eq!(h.push(4, tr(3)), Err(SyncError::OutOfOrderTick));
    // The rejected pushes changed nothing.
    assert_eq!(h.len(), 1);
    assert_eq!(h.get(5), Some(tr(1)));
}

#[test]
fn full_buffer_evicts_oldest() {
    let mut h: HistoryBuffer<ComponentValue> = HistoryBuffer::new(3);
    for t in 1..=4u64 {
        assert!(h.push(t, tr(t as i64)).is_ok());
    }
    assert_eq!(h.len(), 3);
    assert_eq!(h.oldest_tick(), Some(2));
    assert_eq!(h.get(1), None);
    assert_eq!(h.get(4), Some(tr(4)));
}

#[test]
fn truncate_after_drops_later_entries() {
    let mut h: HistoryBuffer<ComponentValue> = HistoryBuffer::new(8);
    for t in 1..=6u64 {
        assert!(h.push(t, tr(t as i64)).is_ok());
    }
    h.truncate_after(4);
    assert_eq!(h.len(), 4);
    assert_eq!(h.newest_tick(), Some(4));
    assert_eq!(h.get(5), None);
    assert_eq!(h.get(4), Some(tr(4)));
}

#[test]
fn bracketing_lookups() {
    let mut h: HistoryBuffer<ComponentValue> = HistoryBuffer::new(8);
    for t in [10u64, 20, 30] {
        assert!(h.push(t, tr(t as i64)).is_ok());
    }
    let floor = h.latest_before_or_at(25).unwrap();
    assert_eq!((floor.tick, floor.value), (20, tr(20)));
    let ceil = h.earliest_after_or_at(25).unwrap();
    assert_eq!((ceil.tick, ceil.value), (30, tr(30)));
    assert!(h.latest_before_or_at(5).is_none());
    assert_eq!(h.earliest_after_or_at(5).unwrap().tick, 10);
    assert_eq!(h.latest_before_or_at(35).unwrap().tick, 30);
    assert!(h.earliest_after_or_at(35).is_none());
    // An exact hit brackets itself on both sides.
    assert_eq!(h.latest_before_or_at(20).unwrap().tick, 20);
    assert_eq!(h.earliest_after_or_at(20).unwrap().tick, 20);
}

#[test]
fn drain_keeps_bracket_start() {
    let mut h: HistoryBuffer<ComponentValue> = HistoryBuffer::new(8);
    for t in [1u64, 2, 3] {
        assert!(h.push(t, tr(t as i64)).is_ok());
    }
    h.drain_consumed(3);
    assert_eq!(h.len(), 1);
    assert_eq!(h.get(3), Some(tr(3)));

    let mut h2: HistoryBuffer<ComponentValue> = HistoryBuffer::new(8);
    for t in [10u64, 20, 30] {
        assert!(h2.push(t, tr(t as i64)).is_ok());
    }
    // 20 still starts the bracket around 25, so only 10 is consumed.
    h2.drain_consumed(25);
    assert_eq!(h2.len(), 2);
    assert_eq!(h2.oldest_tick(), Some(20));
}

#[test]
fn newest_returns_the_last_snapshot() {
    let mut h: HistoryBuffer<ComponentValue> = HistoryBuffer::new(4);
    assert!(h.newest().is_none());
    h.push(2, tr(7)).unwrap();
    h.push(9, tr(8)).unwrap();
    let e = h.newest().unwrap();
    assert_eq!((e.tick, e.value), (9, tr(8)));
}

#[test]
fn clear_empties_the_buffer() {
    let mut h: HistoryBuffer<ComponentValue> = HistoryBuffer::new(4);
    assert!(h.push(1, tr(1)).is_ok());
    h.clear();
    assert_eq!(h.len(), 0);
    assert!(h.newest_tick().is_none());
}
