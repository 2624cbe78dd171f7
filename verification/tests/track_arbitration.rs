use memos_trading_core::robot::backtester::multi_tf_ab::{arbitrate_single_position, TradeSlot};

fn slot(track: usize, e: i64, x: i64, pnl: f64) -> TradeSlot<f64> {
    TradeSlot { entry: e * 1000, exit: x * 1000, track_idx: track, payload: pnl }
}

#[test]
fn arbitrate_rejects_overlap_and_keeps_more_frequent_nonoverlapping() {
    let slots = vec![slot(0, 0, 100, 5.0), slot(1, 10, 20, 1.0), slot(1, 110, 120, 2.0), slot(1, 125, 130, -1.0)];
    let acc = arbitrate_single_position(slots);
    assert_eq!(acc.len(), 3);
    let entries: Vec<i64> = acc.iter().map(|s| s.entry / 1000).collect();
    assert_eq!(entries, vec![0, 110, 125]);
}

#[test]
fn arbitrate_tie_prefers_higher_pf_track() {
    let acc = arbitrate_single_position(vec![slot(1, 0, 50, 1.0), slot(0, 0, 50, 9.0)]);
    assert_eq!(acc.len(), 1);
    assert_eq!(acc[0].track_idx, 0);
    assert_eq!(acc[0].payload, 9.0);
}

#[test]
fn arbitrate_sorts_by_entry_before_taking() {
    let acc = arbitrate_single_position(vec![slot(0, 30, 40, 1.0), slot(0, 0, 10, 2.0), slot(2, 10, 30, 3.0)]);
    let entries: Vec<i64> = acc.iter().map(|s| s.entry / 1000).collect();
    assert_eq!(entries, vec![0, 10, 30]);
    assert!(arbitrate_single_position(Vec::<TradeSlot<f64>>::new()).is_empty());
}
