use memos_trading_core::robot::data_pipeline::health::{CandleHealth, HealthThresholds};
use memos_trading_core::robot::portfolio_manager::Hundredths;
use memos_trading_core::types::Candle;
use std::time::{SystemTime, UNIX_EPOCH};

fn now_secs() -> i64 {
    SystemTime::now().duration_since(UNIX_EPOCH).unwrap().as_secs() as i64
}

fn series(n: usize, interval_secs: i64, last_age_secs: i64) -> Vec<Candle> {
    let last = now_secs() - last_age_secs;
    (0..n)
        .map(|i| {
            let ts = last - (n as i64 - 1 - i as i64) * interval_secs;
            Candle {
                timestamp: ts * 1000,
                open: 1_000_000,
                high: 1_000_000,
                low: 1_000_000,
                close: 1_000_000,
                volume: 1_000,
                symbol: "T".into(),
                interval: "1h".into(),
            }
        })
        .collect()
}

#[test]
fn fresh_contiguous_series_is_healthy() {
    let c = series(200, 3600, 0);
    let h = CandleHealth::from_candles(&c, "1h");
    assert_eq!(h.rows, 200);
    assert!(h.gap_pct_hundredths() < 100, "no gaps, got {}", h.gap_pct_hundredths());
    let th = HealthThresholds { min_rows: 100, max_gap_pct: Hundredths(9000), max_stale_bars: 10 };
    assert!(h.is_healthy(&th, "1h"));
}

#[test]
fn stale_series_rejected() {
    let c = series(200, 3600, 50 * 3600);
    let h = CandleHealth::from_candles(&c, "1h");
    let th = HealthThresholds { min_rows: 100, max_gap_pct: Hundredths(9000), max_stale_bars: 10 };
    assert!(!h.is_healthy(&th, "1h"), "stale series must be rejected (stale={}s)", h.stale_secs);
}

#[test]
fn sparse_series_rejected() {
    let c = series(30, 3600, 0);
    let h = CandleHealth::from_candles(&c, "1h");
    let th = HealthThresholds { min_rows: 100, max_gap_pct: Hundredths(9000), max_stale_bars: 10 };
    assert!(!h.is_healthy(&th, "1h"));
}

#[test]
fn empty_series_is_unhealthy() {
    let h = CandleHealth::from_candles(&[], "1h");
    assert_eq!(h.rows, 0);
    assert_eq!(h.stale_secs, i64::MAX);
    let th = HealthThresholds { min_rows: 1, max_gap_pct: Hundredths(10000), max_stale_bars: u64::MAX };
    assert!(!h.is_healthy(&th, "1h"));
}

#[test]
fn gap_share_counts_missing_bars() {
    // 3 bars over a 10-hour span: 11 expected, 8 missing (72.72 %).
    let mk = |h: i64| Candle {
        timestamp: h * 3_600_000,
        open: 1,
        high: 1,
        low: 1,
        close: 1,
        volume: 1,
        symbol: "T".into(),
        interval: "1h".into(),
    };
    let c = vec![mk(0), mk(5), mk(10)];
    let h = CandleHealth::from_candles_at(&c, "1h", 10 * 3600 + 7200);
    assert_eq!(h.gap_missing, 8);
    assert_eq!(h.gap_expected, 11);
    assert_eq!(h.gap_pct_hundredths(), 7272);
    assert_eq!(h.stale_secs, 7200);
    let tight = HealthThresholds { min_rows: 1, max_gap_pct: Hundredths(7000), max_stale_bars: 2 };
    assert!(!h.is_healthy(&tight, "1h"));
    let loose = HealthThresholds { min_rows: 1, max_gap_pct: Hundredths(7300), max_stale_bars: 2 };
    assert!(h.is_healthy(&loose, "1h"));
}
