use memos_trading_core::robot::backtester::funding_carry::{interval_ms, interval_ms_checked};
use memos_trading_core::robot::advanced::combined_strategy::CombinedStrategy;
use memos_trading_core::robot::advanced::strategy_selector::StrategySelector;
use memos_trading_core::robot::backtester::backtest_engine::{entry_intent, htf_bucket_secs, htf_completed_prefix, DirectionMode};
use memos_trading_core::robot::backtester::walk_forward::wf_oos_windows;
use memos_trading_core::robot::backtester::xs_momentum::{collect_sym_window, select_books};
use memos_trading_core::types::{Candle, Signal};

fn create_candle(close: i64) -> Candle {
    Candle {
        timestamp: 0,
        symbol: "BTC".to_string(),
        interval: "1m".to_string(),
        open: close - 10,
        high: close + 20,
        low: close - 20,
        close,
        volume: 100_000,
    }
}

#[test]
fn test_ma_crossover_buy() {
    let candles: Vec<Candle> = [100, 102, 104, 106, 110].iter().map(|&c| create_candle(c * 1_000_000)).collect();
    let signal = CombinedStrategy::ma_crossover(&candles, 2, 3);
    assert!(signal.is_ok());
}

#[test]
fn test_insufficient_data() {
    let candles = vec![create_candle(100_000_000)];
    let signal = CombinedStrategy::ma_crossover(&candles, 5, 10);
    assert_eq!(signal.unwrap(), Signal::Hold);
}

#[test]
fn ma_crossover_detects_golden_and_death_cross() {
    // fast (2) crosses above slow (3) on the last bar
    let up: Vec<Candle> = [10, 10, 10, 9, 12].iter().map(|&c| create_candle(c)).collect();
    assert_eq!(CombinedStrategy::ma_crossover(&up, 2, 3).unwrap(), Signal::Buy);
    let down: Vec<Candle> = [10, 10, 10, 11, 8].iter().map(|&c| create_candle(c)).collect();
    assert_eq!(CombinedStrategy::ma_crossover(&down, 2, 3).unwrap(), Signal::Sell);
    let flat: Vec<Candle> = [10, 10, 10, 10, 10].iter().map(|&c| create_candle(c)).collect();
    assert_eq!(CombinedStrategy::ma_crossover(&flat, 2, 3).unwrap(), Signal::Hold);
    assert_eq!(CombinedStrategy::ma_crossover(&up, 0, 3).unwrap(), Signal::Hold);
}

#[test]
fn selector_always_picks_ma_crossover() {
    let s = StrategySelector::new();
    assert_eq!(s.select_best(&[], &()), "MA_CROSSOVER");
}

#[test]
fn htf_bucket_and_visible_prefix() {
    assert_eq!(htf_bucket_secs("1h"), 3600);
    assert_eq!(htf_bucket_secs("1d"), 86_400);
    assert_eq!(htf_bucket_secs("2h"), 0);
    let htf: Vec<Candle> = (0..5)
        .map(|h| Candle { timestamp: h * 3_600_000, ..create_candle(1) })
        .collect();
    // a bar at 02:30 sees the hourly bars of 00:00 and 01:00 only
    assert_eq!(htf_completed_prefix(2 * 3_600_000 + 1_800_000, &htf, 3600), Some(2));
    assert_eq!(htf_completed_prefix(1_000, &htf, 3600), None);
    assert_eq!(htf_completed_prefix(10 * 3_600_000, &htf, 3600), Some(5));
    assert_eq!(htf_completed_prefix(10 * 3_600_000, &htf, 0), None);
}

#[test]
fn entry_intent_follows_direction_mode() {
    assert_eq!(entry_intent(Signal::Buy, DirectionMode::LongOnly), Some(true));
    assert_eq!(entry_intent(Signal::Sell, DirectionMode::LongOnly), None);
    assert_eq!(entry_intent(Signal::Sell, DirectionMode::BothDirections), Some(false));
    assert_eq!(entry_intent(Signal::Hold, DirectionMode::RegimeDirectional), None);
    assert_eq!(DirectionMode::default(), DirectionMode::LongOnly);
}

#[test]
fn wf_oos_windows_steps_and_bounds() {
    let w = wf_oos_windows(100, 20, 10, 10);
    assert_eq!(w.len(), 8);
    assert_eq!(w[0].oos_range, (20, 30));
    assert_eq!(w[1].oos_range, (30, 40));
    assert_eq!(w.last().unwrap().oos_range, (90, 100));
    assert!(wf_oos_windows(20, 20, 10, 10).is_empty());
    assert!(!wf_oos_windows(100, 20, 10, 0).is_empty());
}

#[test]
fn select_books_buffer_retains_incumbent() {
    let order = vec![10usize, 11, 12, 13];
    let held_long = vec![12usize];
    let empty: Vec<usize> = Vec::new();
    let (l0, _) = select_books(&order, 2, 0, &held_long, &empty);
    assert!(l0.contains(&10) && l0.contains(&11) && !l0.contains(&12));
    let (l1, _) = select_books(&order, 2, 1, &held_long, &empty);
    assert!(l1.contains(&12) && l1.contains(&10) && !l1.contains(&11));
}

#[test]
fn select_books_plain_top_and_bottom() {
    let order = vec![0usize, 1, 2, 3, 4];
    let empty: Vec<usize> = Vec::new();
    let (l, s) = select_books(&order, 2, 0, &empty, &empty);
    assert_eq!(l, vec![0, 1]);
    assert_eq!(s, vec![4, 3]);
    let (l, s) = select_books(&order, 9, 0, &empty, &empty);
    assert_eq!(l.len(), 2);
    assert_eq!(s.len(), 2);
    let (l, s) = select_books(&vec![7usize], 1, 0, &empty, &empty);
    assert!(l.is_empty() && s.is_empty());
}

#[test]
fn collect_window_skips_gaps_and_respects_horizon() {
    let c = |x: i64| Some(create_candle(x));
    let ohlc = vec![vec![c(1), None], vec![None, c(20)], vec![c(3), c(30)], vec![c(4), c(40)]];
    let w = collect_sym_window(&ohlc, 2, 0, 3);
    let closes: Vec<i64> = w.iter().map(|x| x.close).collect();
    assert_eq!(closes, vec![1, 3]);
    let w = collect_sym_window(&ohlc, 3, 1, 2);
    let closes: Vec<i64> = w.iter().map(|x| x.close).collect();
    assert_eq!(closes, vec![30, 40]);
    assert_eq!(collect_sym_window(&ohlc, 1, 0, 0).len(), 0);
    assert_eq!(collect_sym_window(&ohlc, 9, 0, 2).len(), 0);
}

#[test]
fn interval_ms_of_known_and_numeric_tokens() {
    assert_eq!(interval_ms("1h"), 3_600_000);
    assert_eq!(interval_ms("90"), 90_000);
    assert_eq!(interval_ms("0"), 1_000);
    assert_eq!(interval_ms_checked("18446744073709551615"), Some(-1_000));
    assert_eq!(interval_ms_checked("9223372036854775807"), None);
}

#[test]
fn combine_signals_decision_table() {
    let cases = [
        (Signal::Buy, Signal::Buy, Signal::Buy),
        (Signal::Sell, Signal::Sell, Signal::Sell),
        (Signal::Hold, Signal::Hold, Signal::Hold),
        (Signal::Buy, Signal::Hold, Signal::Buy),
        (Signal::Hold, Signal::Buy, Signal::Buy),
        (Signal::Sell, Signal::Hold, Signal::Sell),
        (Signal::Hold, Signal::Sell, Signal::Sell),
        (Signal::Buy, Signal::Sell, Signal::Hold),
        (Signal::Sell, Signal::Buy, Signal::Hold),
    ];
    for (ma, rsi, want) in cases {
        assert_eq!(CombinedStrategy::combine_signals(ma, rsi), want);
    }
}
