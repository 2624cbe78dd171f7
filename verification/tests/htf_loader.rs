use memos_trading_core::robot::data_pipeline::{aggregate_1m_to, interval_minutes};
use memos_trading_core::types::{Candle, PRICE_SCALE, VOLUME_SCALE};

/// Bars of one minute starting at minute `start_min`; prices in millionths.
fn mk_1m(start_min: i64, count: usize, base_close: f64) -> Vec<Candle> {
    (0..count)
        .map(|i| {
            let ts = (start_min + i as i64) * 60_000;
            let close = base_close + (i as f64) * 0.1;
            let p = |x: f64| (x * PRICE_SCALE as f64).round() as i64;
            Candle {
                timestamp: ts,
                open: p(close - 0.05),
                high: p(close + 0.2),
                low: p(close - 0.2),
                close: p(close),
                volume: 10 * VOLUME_SCALE,
                symbol: "TEST".to_string(),
                interval: "1m".to_string(),
            }
        })
        .collect()
}

#[test]
fn aggregate_1m_to_5m_emits_correct_count() {
    let base = mk_1m(0, 100, 100.0);
    let agg = aggregate_1m_to(&base, "5m", "TEST");
    assert_eq!(agg.len(), 20);
    for c in &agg {
        assert_eq!(c.interval, "5m");
        assert!(c.high >= c.low);
    }
}

#[test]
fn aggregate_1m_to_1h_needs_60_bars() {
    let base = mk_1m(0, 59, 100.0);
    let agg = aggregate_1m_to(&base, "1h", "TEST");
    assert!(agg.is_empty(), "59 minutes must not make a 1h bar");

    let base2 = mk_1m(0, 120, 100.0);
    let agg2 = aggregate_1m_to(&base2, "1h", "TEST");
    assert_eq!(agg2.len(), 2);
}

#[test]
fn aggregate_filters_other_intervals() {
    let base = mk_1m(0, 60, 100.0);
    let agg = aggregate_1m_to(&base, "15m", "TEST");
    assert_eq!(agg.len(), 4);
    assert!(agg.iter().all(|c| c.interval == "15m"));
}

#[test]
fn aggregate_empty_input_returns_empty() {
    let agg = aggregate_1m_to(&[], "5m", "TEST");
    assert!(agg.is_empty());
}

#[test]
fn aggregate_unsupported_target_returns_empty() {
    let base = mk_1m(0, 60, 100.0);
    let agg = aggregate_1m_to(&base, "7m", "TEST");
    assert!(agg.is_empty());
}

#[test]
fn interval_minutes_known_values() {
    assert_eq!(interval_minutes("1m"), 1);
    assert_eq!(interval_minutes("5m"), 5);
    assert_eq!(interval_minutes("1h"), 60);
    assert_eq!(interval_minutes("4h"), 240);
    assert_eq!(interval_minutes("1d"), 1440);
    assert_eq!(interval_minutes("garbage"), 0);
}

#[test]
fn aggregated_bar_takes_window_extremes_and_sums() {
    let base = mk_1m(0, 10, 100.0);
    let agg = aggregate_1m_to(&base, "5m", "SYM");
    assert_eq!(agg.len(), 2);
    let b = &agg[1];
    assert_eq!(b.timestamp, 5 * 60_000);
    assert_eq!(b.open, base[5].open);
    assert_eq!(b.close, base[9].close);
    assert_eq!(b.high, base[9].high);
    assert_eq!(b.low, base[5].low);
    assert_eq!(b.volume, 50 * VOLUME_SCALE);
    assert_eq!(b.symbol, "SYM");
}
