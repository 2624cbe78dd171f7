use memos_trading_core::robot::data_pipeline::cleaner::{DataCleaner, MIN_FILL_VOLUME};
use memos_trading_core::robot::data_pipeline::normalizer::DataNormalizer;
use memos_trading_core::robot::data_pipeline::time_order::sort_dedup;
use memos_trading_core::robot::data_pipeline::validator::{DataValidator, ValidationError};
use memos_trading_core::types::Candle;

fn bar(ts_ms: i64, close: i64, volume: i64, symbol: &str) -> Candle {
    Candle {
        timestamp: ts_ms,
        open: close,
        high: close + 10,
        low: close - 10,
        close,
        volume,
        symbol: symbol.to_string(),
        interval: "1m".to_string(),
    }
}

#[test]
fn parse_interval_known_tokens_numbers_and_fallback() {
    assert_eq!(DataNormalizer::parse_interval("1m"), 60);
    assert_eq!(DataNormalizer::parse_interval("5M"), 300);
    assert_eq!(DataNormalizer::parse_interval("15m"), 900);
    assert_eq!(DataNormalizer::parse_interval("30m"), 1800);
    assert_eq!(DataNormalizer::parse_interval("1H"), 3600);
    assert_eq!(DataNormalizer::parse_interval("4h"), 14400);
    assert_eq!(DataNormalizer::parse_interval("1d"), 86400);
    assert_eq!(DataNormalizer::parse_interval("120"), 120);
    assert_eq!(DataNormalizer::parse_interval("weekly"), 60);
}

#[test]
fn sort_dedup_keeps_earliest_of_each_timestamp_in_time_order() {
    let v = vec![bar(3000, 3, 1, "A"), bar(1000, 1, 1, "A"), bar(3000, 33, 1, "B"), bar(2000, 2, 1, "A")];
    let by_time = sort_dedup(&v, false);
    let closes: Vec<i64> = by_time.iter().map(|c| c.close).collect();
    assert_eq!(closes, vec![1, 2, 3]);
    let by_symbol = sort_dedup(&v, true);
    let closes: Vec<i64> = by_symbol.iter().map(|c| c.close).collect();
    assert_eq!(closes, vec![1, 2, 3, 33]);
}

#[test]
fn normalizer_sorts_dedups_and_standardizes_names() {
    let mut a = bar(2000, 1_000_000, 12_345, "btc-usdt");
    a.interval = "1M".to_string();
    let b = bar(1000, 1_000_000, 4, "BTC/USDT");
    let dup = bar(2000, 5_000_000, 1, "x");
    let out = DataNormalizer::process_and_standardize(vec![a, b, dup]);
    assert_eq!(out.len(), 2);
    assert_eq!(out[0].timestamp, 1000);
    assert_eq!(out[1].timestamp, 2000);
    assert_eq!(out[0].symbol, "BTCUSDT");
    assert_eq!(out[1].symbol, "BTCUSDT");
    assert_eq!(out[1].interval, "1m");
    assert_eq!(out[1].close, 1_000_000);
    // 12.345 rounds to 12.35, 0.004 to 0.00
    assert_eq!(out[1].volume, 12_350);
    assert_eq!(out[0].volume, 0);
}

#[test]
fn normalizer_clamps_spikes_to_twenty_percent() {
    let v = vec![bar(1000, 1_000_000, 1, "S"), bar(2000, 2_000_000, 1, "S"), bar(3000, 100_000, 1, "S")];
    let out = DataNormalizer::process_and_standardize(v);
    assert_eq!(out[1].close, 1_200_000);
    assert!(out[1].high >= out[1].close);
    assert_eq!(out[2].close, 960_000);
    assert!(out[2].low <= out[2].close);
}

#[test]
fn normalizer_replaces_non_positive_close_with_previous() {
    let v = vec![bar(1000, 1_000_000, 1, "S"), bar(2000, 0, 1, "S")];
    let out = DataNormalizer::process_and_standardize(v);
    assert_eq!(out[1].close, 1_000_000);
    assert_eq!(out[1].open, 1_000_000);
    assert_eq!(out[1].high, 1_000_000);
    assert_eq!(out[1].low, 1_000_000);
}

#[test]
fn normalizer_drops_single_invalid_bar_and_keeps_empty() {
    assert!(DataNormalizer::process_and_standardize(vec![bar(1000, -5, 1, "S")]).is_empty());
    assert!(DataNormalizer::process_and_standardize(Vec::new()).is_empty());
}

#[test]
fn normalizer_skips_leading_bars_without_a_usable_close() {
    let v = vec![bar(1000, 0, 1, "BTCUSDT"), bar(2000, 100, 1, "BTCUSDT")];
    let out = DataNormalizer::process_and_standardize(v);
    assert_eq!(out.len(), 1);
    assert_eq!(out[0].timestamp, 2000);
    assert_eq!(out[0].close, 100);
    let v = vec![bar(3000, 120, 1, "S"), bar(1000, -4, 1, "S"), bar(2000, 0, 1, "S"), bar(4000, 0, 1, "S")];
    let out = DataNormalizer::process_and_standardize(v);
    let stamps: Vec<i64> = out.iter().map(|c| c.timestamp).collect();
    assert_eq!(stamps, vec![3000, 4000]);
    assert_eq!(out[1].close, 120);
}

#[test]
fn validator_reports_each_rule() {
    assert_eq!(DataValidator::validate_ohlc(&bar(0, 100, 1, "S")), Ok(()));
    let mut c = bar(0, 100, 1, "S");
    c.high = 50;
    assert_eq!(DataValidator::validate_ohlc(&c), Err(ValidationError::HighBelowBody));
    let mut c = bar(0, 100, 1, "S");
    c.low = 150;
    c.high = 200;
    assert_eq!(DataValidator::validate_ohlc(&c), Err(ValidationError::LowAboveBody));
    let mut c = bar(0, 0, 1, "S");
    c.low = -10;
    assert_eq!(DataValidator::validate_ohlc(&c), Err(ValidationError::NegativePrice));
    let c = bar(0, 100, -1, "S");
    assert_eq!(DataValidator::validate_ohlc(&c), Err(ValidationError::NegativeVolume));
}

#[test]
fn validator_checks_series_shape() {
    assert_eq!(DataValidator::validate_sequence(&[]), Err(ValidationError::EmptySeries));
    let ok = vec![bar(1000, 100, 1, "S"), bar(2000, 100, 1, "S")];
    assert_eq!(DataValidator::validate_sequence(&ok), Ok(()));
    let mixed = vec![bar(1000, 100, 1, "S"), bar(2000, 100, 1, "T")];
    assert_eq!(DataValidator::validate_sequence(&mixed), Err(ValidationError::MixedSeries(1)));
    let order = vec![bar(1000, 100, 1, "S"), bar(1000, 100, 1, "S")];
    assert_eq!(DataValidator::validate_sequence(&order), Err(ValidationError::TimeOrder(1)));
}

#[test]
fn cleaner_dedups_by_time_and_symbol_and_fills_volume() {
    let mut v = vec![
        bar(2000, 1_000_000, 0, "A"),
        bar(1000, 1_000_000, 0, "A"),
        bar(1000, 1_000_000, 7, "B"),
        bar(2000, 9_999_999, 5, "A"),
    ];
    assert!(DataCleaner::clean(&mut v).is_ok());
    assert_eq!(v.len(), 3);
    assert_eq!((v[0].timestamp, v[0].symbol.as_str()), (1000, "A"));
    assert_eq!((v[1].timestamp, v[1].symbol.as_str()), (1000, "B"));
    assert_eq!((v[2].timestamp, v[2].symbol.as_str()), (2000, "A"));
    assert_eq!(v[0].volume, MIN_FILL_VOLUME);
    assert_eq!(v[1].volume, 7);
    assert_eq!(v[2].volume, 7);
    assert_eq!(v[2].close, 1_000_000);
}

#[test]
fn cleaner_damps_thin_outlier_but_keeps_liquid_jump() {
    let mut thin = vec![bar(1000, 1_000_000, 1_000_000, "A"), bar(2000, 1_600_000, 50_000, "A")];
    DataCleaner::handle_outliers_and_volume(&mut thin);
    assert_eq!(thin[1].close, 1_000_000);
    let mut liquid = vec![bar(1000, 1_000_000, 1_000_000, "A"), bar(2000, 1_600_000, 500_000, "A")];
    DataCleaner::handle_outliers_and_volume(&mut liquid);
    assert_eq!(liquid[1].close, 1_600_000);
}

#[test]
fn interpolation_fills_gaps_linearly() {
    let mut v = vec![bar(0, 1_000_000, 5, "A"), bar(240_000, 1_300_000, 5, "A")];
    assert!(DataCleaner::interpolate_missing_candles(&mut v, 60).is_ok());
    assert_eq!(v.len(), 5);
    let ts: Vec<i64> = v.iter().map(|c| c.timestamp).collect();
    assert_eq!(ts, vec![0, 60_000, 120_000, 180_000, 240_000]);
    let closes: Vec<i64> = v.iter().map(|c| c.close).collect();
    assert_eq!(closes, vec![1_000_000, 1_075_000, 1_150_000, 1_225_000, 1_300_000]);
    assert_eq!(v[1].open, 1_000_000);
    assert_eq!(v[1].volume, MIN_FILL_VOLUME);
    let mut short = vec![bar(0, 1, 1, "A")];
    assert!(DataCleaner::interpolate_missing_candles(&mut short, 60).is_ok());
    assert_eq!(short.len(), 1);
}

#[test]
fn clean_fills_volumes_and_keeps_first_of_each_key() {
    let mut v = vec![
        bar(3000, 100, -2, "A"),
        bar(1000, 100, 0, "A"),
        bar(2000, 100, 7, "A"),
        bar(2000, 100, 9, "A"),
        bar(2000, 100, 4, "B"),
    ];
    assert!(DataCleaner::clean(&mut v).is_ok());
    let rows: Vec<(i64, &str, i64)> = v.iter().map(|c| (c.timestamp, c.symbol.as_str(), c.volume)).collect();
    assert_eq!(rows, vec![(1000, "A", MIN_FILL_VOLUME), (2000, "A", 7), (2000, "B", 4), (3000, "A", 4)]);
}

#[test]
fn parse_interval_number_forms() {
    assert_eq!(DataNormalizer::parse_interval("+90"), 90);
    assert_eq!(DataNormalizer::parse_interval("18446744073709551615"), 18446744073709551615);
    assert_eq!(DataNormalizer::parse_interval("18446744073709551616"), 60);
    assert_eq!(DataNormalizer::parse_interval("-5"), 60);
    assert_eq!(DataNormalizer::parse_interval(""), 60);
}
