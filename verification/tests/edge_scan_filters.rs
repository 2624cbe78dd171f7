use memos_trading_core::robot::backtester::edge_scan::{series_passes, CandleSeriesRef, SeriesFilter};

fn series_ref(sym: &str, iv: &str, rows: usize) -> CandleSeriesRef {
    CandleSeriesRef {
        exchange: "binance".into(),
        market: "futures".into(),
        symbol: sym.into(),
        interval: iv.into(),
        rows,
    }
}

#[test]
fn series_passes_respects_filters_and_min_rows() {
    let cfg = SeriesFilter { min_rows: 400, symbol_filter: vec!["BTCUSDT".into()], interval_filter: vec!["1h".into()] };
    assert!(series_passes(&cfg, &series_ref("BTCUSDT", "1h", 500)));
    assert!(!series_passes(&cfg, &series_ref("BTCUSDT", "1h", 100)), "min_rows altı elenir");
    assert!(!series_passes(&cfg, &series_ref("ETHUSDT", "1h", 500)), "sembol filtresi");
    assert!(!series_passes(&cfg, &series_ref("BTCUSDT", "15m", 500)), "interval filtresi");
    let cfg2 = SeriesFilter { symbol_filter: vec!["btcusdt".into()], ..Default::default() };
    assert!(series_passes(&cfg2, &series_ref("BTCUSDT", "1h", 500)));
}

#[test]
fn empty_filters_only_count_rows() {
    let cfg = SeriesFilter::default();
    assert!(series_passes(&cfg, &series_ref("ANY", "3d", 400)));
    assert!(!series_passes(&cfg, &series_ref("ANY", "3d", 399)));
}

#[test]
fn interval_filter_is_case_sensitive() {
    let cfg = SeriesFilter { min_rows: 0, symbol_filter: vec![], interval_filter: vec!["1H".into(), "4h".into()] };
    assert!(!series_passes(&cfg, &series_ref("X", "1h", 1)));
    assert!(series_passes(&cfg, &series_ref("X", "4h", 1)));
}
