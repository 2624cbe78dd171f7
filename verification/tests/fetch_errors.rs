use memos_trading_core::robot::data_fetcher::binance::{
    api_error_message, fetch_error_is_delisting, is_futures_market, no_bars_message, BinanceFetcher, Pagination,
    DELISTING_ERR_PREFIX,
};

#[test]
fn delisting_classification_separates_transient_from_symbol_gone() {
    assert!(fetch_error_is_delisting(
        &format!("{DELISTING_ERR_PREFIX}: MYXUSDT (code -1121 Invalid symbol.)")));
    assert!(fetch_error_is_delisting(
        &format!("{DELISTING_ERR_PREFIX}: FOOUSDT (geçerli mum verisi alınamadı)")));
    assert!(!fetch_error_is_delisting("Binance Geçici API Hatası: MYXUSDT (code -1003 Too many requests.)"));
    assert!(!fetch_error_is_delisting("Binance Bağlantı Hatası: timeout"));
    assert!(!fetch_error_is_delisting("Binance Veri Format Hatası: yanıt klines değil (MYXUSDT)"));
}

#[test]
fn api_errors_are_classified_by_code() {
    let gone = api_error_message("MYXUSDT", -1121, "Invalid symbol.");
    assert_eq!(gone, format!("{DELISTING_ERR_PREFIX}: MYXUSDT (code -1121 Invalid symbol.)"));
    assert!(fetch_error_is_delisting(&gone));
    let busy = api_error_message("MYXUSDT", -1003, "Too many requests.");
    assert_eq!(busy, "Binance Geçici API Hatası: MYXUSDT (code -1003 Too many requests.)");
    assert!(!fetch_error_is_delisting(&busy));
    let empty = no_bars_message("FOOUSDT");
    assert_eq!(empty, format!("{DELISTING_ERR_PREFIX}: FOOUSDT (geçerli mum verisi alınamadı)"));
    assert!(fetch_error_is_delisting(&empty));
}

#[test]
fn klines_endpoint_follows_market() {
    assert_eq!(BinanceFetcher::klines_base("futures"), "https://fapi.binance.com/fapi/v1/klines");
    assert_eq!(BinanceFetcher::klines_base("FUTURES"), "https://fapi.binance.com/fapi/v1/klines");
    assert_eq!(BinanceFetcher::klines_base("spot"), "https://api.binance.com/api/v3/klines");
    assert_eq!(BinanceFetcher::klines_base("future"), "https://api.binance.com/api/v3/klines");
    assert!(is_futures_market("Futures"));
    assert!(!is_futures_market("futures "));
}

#[test]
fn kline_time_needs_positive_millis() {
    assert_eq!(BinanceFetcher::kline_bar_time(1_700_000_000_000), Some(1_700_000_000_000));
    assert_eq!(BinanceFetcher::kline_bar_time(0), None);
    assert_eq!(BinanceFetcher::kline_bar_time(-1), None);
}

#[test]
fn bar_paging_walks_forward_and_stops() {
    let mut p = Pagination::for_bars(-50, 60, 10_000_000, 0);
    assert_eq!(p.requests_left, 1);
    assert_eq!(p.step_ms, 60_000);
    assert_eq!(p.next_request(), Some(0));
    let full: Vec<i64> = (0..1000).map(|i| i * 60_000).collect();
    p.record_page(&full);
    assert_eq!(p.cursor, 999 * 60_000 + 60_000);
    assert!(!p.done);
    assert_eq!(p.next_request(), None, "the one allowed request is used up");
    assert!(p.done);
}

#[test]
fn paging_stops_on_short_page_empty_page_failure_and_now() {
    let mut p = Pagination::for_funding(100, 1_000, 10);
    assert_eq!(p.next_request(), Some(100));
    p.record_page(&vec![150, 400, 300]);
    assert_eq!(p.cursor, 401);
    assert!(p.done, "a page that is not full means the present was reached");
    assert_eq!(p.next_request(), None);

    let mut q = Pagination::for_funding(0, 1_000, 10);
    assert_eq!(q.next_request(), Some(0));
    q.record_page(&vec![]);
    assert!(q.done);

    let mut f = Pagination::for_funding(0, 1_000, 10);
    assert_eq!(f.next_request(), Some(0));
    f.record_failure();
    assert_eq!(f.next_request(), None);

    let mut late = Pagination::for_funding(5_000, 1_000, 10);
    assert_eq!(late.next_request(), None, "the cursor is already at now");
}

#[test]
fn paging_without_progress_stops() {
    let mut p = Pagination::start(500, 1, 10_000, 5);
    assert_eq!(p.next_request(), Some(500));
    let stale: Vec<i64> = (0..1000).map(|_| 10).collect();
    p.record_page(&stale);
    assert!(p.done);
    assert_eq!(p.cursor, 500);
}
