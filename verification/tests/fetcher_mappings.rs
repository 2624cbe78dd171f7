use memos_trading_core::robot::data_fetcher::hybrid::{after_rest, first_source, FetchMode, FetchSource};
use memos_trading_core::robot::data_fetcher::twelvedata::{urlencoding, TwelveDataFetcher};
use memos_trading_core::robot::data_fetcher::websocket::{validate_ohlcv, OhlcvError};
use memos_trading_core::robot::data_fetcher::yahoo::YahooFetcher;

#[test]
fn ticker_suffix_mapping() {
    assert_eq!(YahooFetcher::yahoo_ticker("bist", "THYAO"), "THYAO.IS");
    assert_eq!(YahooFetcher::yahoo_ticker("forex", "EURUSD"), "EURUSD=X");
    assert_eq!(YahooFetcher::yahoo_ticker("commodity", "GC"), "GC=F");
    assert_eq!(YahooFetcher::yahoo_ticker("usequity", "AAPL"), "AAPL");
    assert_eq!(YahooFetcher::yahoo_ticker("bist", "GARAN.IS"), "GARAN.IS");
    assert_eq!(YahooFetcher::yahoo_ticker("forex", "GBPUSD=X"), "GBPUSD=X");
}

#[test]
fn yahoo_ticker_trims_and_ignores_class_case() {
    assert_eq!(YahooFetcher::yahoo_ticker("BIST", "  akbnk "), "akbnk.IS");
    assert_eq!(YahooFetcher::yahoo_ticker("Gold", "GC"), "GC=F");
}

#[test]
fn interval_and_symbol_mapping() {
    assert_eq!(TwelveDataFetcher::td_interval("1d"), "1day");
    assert_eq!(TwelveDataFetcher::td_interval("1h"), "1h");
    assert_eq!(TwelveDataFetcher::td_symbol("bist", "THYAO"), ("THYAO".into(), Some("BIST")));
    assert_eq!(TwelveDataFetcher::td_symbol("forex", "EURUSD"), ("EUR/USD".into(), None));
    assert_eq!(TwelveDataFetcher::td_symbol("commodity", "XAUUSD"), ("XAU/USD".into(), None));
    assert_eq!(TwelveDataFetcher::td_symbol("forex", "EUR/USD"), ("EUR/USD".into(), None));
    assert_eq!(TwelveDataFetcher::td_symbol("usequity", "AAPL"), ("AAPL".into(), None));
}

#[test]
fn td_interval_passes_unknown_tokens_through() {
    assert_eq!(TwelveDataFetcher::td_interval("1m"), "1min");
    assert_eq!(TwelveDataFetcher::td_interval("1M"), "1month");
    assert_eq!(TwelveDataFetcher::td_interval("3d"), "3d");
}

#[test]
fn td_symbol_checked_refuses_split_inside_a_character() {
    assert_eq!(TwelveDataFetcher::td_symbol_checked("fx", "ab€d"), None);
    assert_eq!(TwelveDataFetcher::td_symbol_checked("fx", "USDTRY"), Some(("USD/TRY".to_string(), None)));
}

#[test]
fn urlencoding_escapes_slash_and_space() {
    assert_eq!(urlencoding("EUR/USD"), "EUR%2FUSD");
    assert_eq!(urlencoding("BRK B"), "BRK%20B");
    assert_eq!(urlencoding("AAPL"), "AAPL");
}

#[test]
fn ohlcv_validation_rules() {
    assert_eq!(validate_ohlcv(10, 12, 9, 11, 0), Ok(()));
    assert_eq!(validate_ohlcv(0, 12, 9, 11, 5), Err(OhlcvError::NonPositivePrice));
    assert_eq!(validate_ohlcv(10, 10, 9, 11, 5), Err(OhlcvError::InconsistentRange));
    assert_eq!(validate_ohlcv(10, 12, 11, 11, 5), Err(OhlcvError::InconsistentRange));
    assert_eq!(validate_ohlcv(10, 12, 9, 11, -1), Err(OhlcvError::NegativeVolume));
}

#[test]
fn hybrid_fetch_falls_back_to_stream_only_in_hybrid_mode() {

    assert_eq!(first_source(FetchMode::RestOnly), FetchSource::Rest);
    assert_eq!(first_source(FetchMode::WebSocketOnly), FetchSource::WebSocket);
    assert_eq!(first_source(FetchMode::Hybrid), FetchSource::Rest);
    assert_eq!(after_rest(FetchMode::Hybrid, false), Some(FetchSource::WebSocket));
    assert_eq!(after_rest(FetchMode::Hybrid, true), None);
    assert_eq!(after_rest(FetchMode::RestOnly, false), None);
}

#[test]
fn urlencoding_keeps_multibyte_characters() {
    assert_eq!(urlencoding("ÇAY/ü x"), "ÇAY%2Fü%20x");
    assert_eq!(urlencoding(""), "");
    assert_eq!(urlencoding("//"), "%2F%2F");
}

#[test]
fn yahoo_ticker_trims_unicode_white_space() {
    assert_eq!(YahooFetcher::yahoo_ticker("bist", "\u{3000}\tTHYAO\u{a0}\n"), "THYAO.IS");
    assert_eq!(YahooFetcher::yahoo_ticker("usequity", " \u{2003} "), "");
}
