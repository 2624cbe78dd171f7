use memos_trading_core::robot::data_pipeline::htf_loader::{htf_after_base_read, htf_after_htf_read, htf_load_start, HtfLoadStep};
use memos_trading_core::robot::data_pipeline::DataPipeline;
use memos_trading_core::types::Candle;

fn one_minute(i: i64, close: i64) -> Candle {
    Candle {
        timestamp: i * 60_000,
        open: close,
        high: close + 1,
        low: close - 1,
        close,
        volume: 1_000,
        symbol: "btc_usdt".to_string(),
        interval: "1m".to_string(),
    }
}

#[test]
fn htf_interval_hierarchy() {
    assert_eq!(DataPipeline::get_htf_interval("1m"), "1h");
    assert_eq!(DataPipeline::get_htf_interval("5m"), "1h");
    assert_eq!(DataPipeline::get_htf_interval("15m"), "4h");
    assert_eq!(DataPipeline::get_htf_interval("30m"), "4h");
    assert_eq!(DataPipeline::get_htf_interval("1h"), "4h");
    assert_eq!(DataPipeline::get_htf_interval("4h"), "1d");
    assert_eq!(DataPipeline::get_htf_interval("1d"), "1d");
    assert_eq!(DataPipeline::get_htf_interval("weird"), "1d");
}

#[test]
fn process_tick_caches_and_synthesizes() {
    let mut p = DataPipeline::new(100, "BTCUSDT");
    let bars: Vec<Candle> = (0..5).map(|i| one_minute(i, 1_000_000 + i)).collect();
    let formed = p.process_tick(bars);
    assert_eq!(p.cache.len("BTCUSDT", "1m"), 5);
    assert_eq!(formed.len(), 1);
    assert_eq!(formed[0].interval, "5m");
    assert_eq!(formed[0].close, 1_000_004);
    assert!(p.process_tick(Vec::new()).is_empty());
}

#[test]
fn process_tick_skips_invalid_bars() {
    let mut p = DataPipeline::new(100, "BTCUSDT");
    let mut bad = one_minute(1, 1_000_000);
    bad.high = bad.close - 5;
    let formed = p.process_tick(vec![one_minute(0, 1_000_000), bad]);
    assert!(formed.is_empty());
    assert_eq!(p.cache.len("BTCUSDT", "1m"), 1);
}

#[test]
fn htf_load_plan_steps() {
    match htf_load_start("1d", 10) {
        HtfLoadStep::Done(v) => assert!(v.is_empty()),
        _ => panic!("1d is its own higher timeframe"),
    }
    match htf_load_start("1m", 10) {
        HtfLoadStep::Read { interval, limit } => {
            assert_eq!(interval, "1h");
            assert_eq!(limit, 50);
        }
        _ => panic!("expected a read"),
    }
    match htf_load_start("15m", 80) {
        HtfLoadStep::Read { interval, limit } => {
            assert_eq!(interval, "4h");
            assert_eq!(limit, 80);
        }
        _ => panic!("expected a read"),
    }
    let enough: Vec<Candle> = (0..30).map(|i| one_minute(i, 1)).collect();
    match htf_after_htf_read("1m", 10, Some(enough)) {
        HtfLoadStep::Done(v) => assert_eq!(v.len(), 30),
        _ => panic!("enough bars end the load"),
    }
    match htf_after_htf_read("1m", 10, None) {
        HtfLoadStep::Read { interval, limit } => {
            assert_eq!(interval, "1m");
            assert_eq!(limit, 31 * 60);
        }
        _ => panic!("1m falls back to synthesis"),
    }
    match htf_after_htf_read("5m", 10, Some(Vec::new())) {
        HtfLoadStep::Done(v) => assert!(v.is_empty()),
        _ => panic!("no fallback for 5m"),
    }
    let hour: Vec<Candle> = (0..120).map(|i| one_minute(i, 1_000_000)).collect();
    let agg = htf_after_base_read("BTCUSDT", Some(hour));
    assert_eq!(agg.len(), 2);
    assert_eq!(agg[0].interval, "1h");
    assert!(htf_after_base_read("BTCUSDT", None).is_empty());
}
