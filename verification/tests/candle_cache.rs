use memos_trading_core::robot::data_pipeline::cache::NO_DATA_AGE_SECS;
use memos_trading_core::robot::data_pipeline::CandleCache;
use memos_trading_core::types::Candle;

fn bar(ts_ms: i64, close: i64, symbol: &str, interval: &str) -> Candle {
    Candle {
        timestamp: ts_ms,
        open: close,
        high: close,
        low: close,
        close,
        volume: 1,
        symbol: symbol.to_string(),
        interval: interval.to_string(),
    }
}

#[test]
fn cache_keeps_latest_bars_per_key_up_to_capacity() {
    let mut cache = CandleCache::new(3);
    cache.push_bulk((0..5).map(|i| bar(i * 60_000, i, "BTC", "1m")).collect());
    assert_eq!(cache.len("BTC", "1m"), 3);
    let latest = cache.get_latest("BTC", "1m", 2);
    let closes: Vec<i64> = latest.iter().map(|c| c.close).collect();
    assert_eq!(closes, vec![3, 4]);
    assert_eq!(cache.get_latest("BTC", "1m", 10).len(), 3);
    assert_eq!(cache.len("ETH", "1m"), 0);
    assert!(cache.get_latest("BTC", "5m", 10).is_empty());
}

#[test]
fn cache_replaces_bar_with_same_timestamp() {
    let mut cache = CandleCache::new(10);
    cache.push_bulk(vec![bar(0, 1, "BTC", "1m"), bar(60_000, 2, "BTC", "1m")]);
    cache.push_bulk(vec![bar(60_000, 3, "BTC", "1m")]);
    assert_eq!(cache.len("BTC", "1m"), 2);
    assert_eq!(cache.get_latest("BTC", "1m", 1)[0].close, 3);
}

#[test]
fn cache_read_after_write_and_clear() {
    let mut cache = CandleCache::default();
    cache.push_bulk(vec![bar(0, 7, "ETH", "1h")]);
    assert_eq!(cache.get_latest("ETH", "1h", 1)[0].close, 7);
    cache.clear();
    assert_eq!(cache.len("ETH", "1h"), 0);
}

#[test]
fn cache_key_joins_symbol_and_interval() {
    let mut cache = CandleCache::new(10);
    cache.push_bulk(vec![bar(0, 1, "A_B", "C")]);
    assert_eq!(cache.len("A", "B_C"), 1);
}

#[test]
fn cache_age_of_last_bar() {
    let mut cache = CandleCache::new(10);
    assert_eq!(cache.last_update_age_at("BTC", "1m", 0), NO_DATA_AGE_SECS);
    cache.push_bulk(vec![bar(1_000_000, 1, "BTC", "1m")]);
    assert_eq!(cache.last_update_age_at("BTC", "1m", 1_061_500), 61);
    assert_eq!(cache.last_update_age_at("BTC", "1m", 500), 0);
    assert!(cache.last_update_age("BTC", "1m") > 0);
}

#[test]
fn zero_capacity_cache_stores_nothing() {
    let mut cache = CandleCache::new(0);
    cache.push_bulk(vec![bar(0, 1, "BTC", "1m")]);
    assert_eq!(cache.len("BTC", "1m"), 0);
}

#[test]
fn cache_updates_an_older_bar_with_the_same_timestamp() {
    let mut cache = CandleCache::new(3);
    cache.push_bulk(vec![bar(0, 1, "BTC", "1m"), bar(60_000, 2, "BTC", "1m")]);
    cache.push_bulk(vec![bar(0, 9, "BTC", "1m")]);
    assert_eq!(cache.len("BTC", "1m"), 2);
    let all: Vec<(i64, i64)> = cache.get_latest("BTC", "1m", 2).iter().map(|c| (c.timestamp, c.close)).collect();
    assert_eq!(all, vec![(0, 9), (60_000, 2)]);
}

#[test]
fn cache_push_leaves_other_keys_untouched() {
    let mut cache = CandleCache::new(4);
    cache.push_bulk(vec![bar(0, 7, "ETH", "1m"), bar(60_000, 8, "ETH", "1m")]);
    cache.push_bulk((0..6).map(|i| bar(i * 60_000, i, "BTC", "1m")).collect());
    cache.push_bulk(vec![bar(0, 9, "ETH", "5m")]);
    let eth: Vec<i64> = cache.get_latest("ETH", "1m", 10).iter().map(|c| c.close).collect();
    assert_eq!(eth, vec![7, 8]);
    assert_eq!(cache.len("BTC", "1m"), 4);
    assert_eq!(cache.len("ETH", "5m"), 1);
}
