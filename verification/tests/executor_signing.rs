use memos_trading_core::robot::binance_executor::{to_hex_lower, trim_decimal_zeros, BinanceFuturesExecutor};

#[test]
fn test_executor_new_paper() {
    let exec = BinanceFuturesExecutor::new("test_key".to_string(), "test_secret".to_string(), true);
    assert!(exec.is_paper);
    assert!(!exec.is_spot);
    assert_eq!(exec.base_url, "https://testnet.binancefuture.com");
}

#[test]
fn test_executor_new_live() {
    let exec = BinanceFuturesExecutor::new("test_key".to_string(), "test_secret".to_string(), false);
    assert!(!exec.is_paper);
    assert!(!exec.is_spot);
    assert_eq!(exec.base_url, "https://fapi.binance.com");
}

#[test]
fn test_executor_spot() {
    let exec = BinanceFuturesExecutor::new_for_market("test_key".to_string(), "test_secret".to_string(), false, "spot");
    assert!(exec.is_spot);
    assert_eq!(exec.base_url, "https://api.binance.com");
    assert_eq!(exec.order_path(), "/api/v3/order");
}

#[test]
fn test_sign_request() {
    let exec = BinanceFuturesExecutor::new("key".to_string(), "secret".to_string(), true);
    let sig = exec.sign_request("symbol=BTCUSDT&timestamp=1000");
    assert!(!sig.is_empty());
    assert_eq!(sig.len(), 64);
}

#[test]
fn sign_request_matches_rfc4231_vector() {
    let exec = BinanceFuturesExecutor::new("k".to_string(), "Jefe".to_string(), true);
    assert_eq!(
        exec.sign_request("what do ya want for nothing?"),
        "5bdcc146bf60754e6a042426089575c75a003f089d2739839dec58b964ec3843"
    );
}

#[test]
fn signed_url_sorts_params_and_appends_signature() {
    let exec = BinanceFuturesExecutor::new("k".to_string(), "Jefe".to_string(), false);
    let url = exec.signed_url(exec.order_path(), vec!["timestamp=5".to_string(), "symbol=BTC".to_string()]);
    let sig = exec.sign_request("symbol=BTC&timestamp=5");
    assert_eq!(url, format!("https://fapi.binance.com/fapi/v1/order?symbol=BTC&timestamp=5&signature={}", sig));
}

#[test]
fn hex_is_lowercase_two_digits_per_byte() {
    assert_eq!(to_hex_lower(&[0x00, 0x0f, 0xa0, 0xff]), "000fa0ff");
    assert_eq!(to_hex_lower(&[]), "");
}

#[test]
fn nonce_is_recent_epoch_millis() {
    let exec = BinanceFuturesExecutor::new("k".to_string(), "s".to_string(), true);
    assert!(exec.nonce() > 1_600_000_000_000);
}

#[test]
fn decimal_texts_lose_trailing_zeros() {
    assert_eq!(trim_decimal_zeros("1.50000000"), "1.5");
    assert_eq!(trim_decimal_zeros("2.00000000"), "2");
    assert_eq!(trim_decimal_zeros("100"), "100");
    assert_eq!(trim_decimal_zeros("0.00012000"), "0.00012");
    assert_eq!(trim_decimal_zeros(""), "");
}

#[test]
fn post_only_parameters_follow_market() {
    let fut = BinanceFuturesExecutor::new("k".to_string(), "s".to_string(), false);
    assert_eq!(
        fut.post_only_order_params("BTCUSDT", "BUY", "0.01000000", "50000.10000000", 1700),
        vec![
            "symbol=BTCUSDT", "side=BUY", "type=LIMIT", "timeInForce=GTX", "quantity=0.01", "price=50000.1",
            "timestamp=1700", "recvWindow=5000",
        ]
    );
    let spot = BinanceFuturesExecutor::new_for_market("k".to_string(), "s".to_string(), false, "spot");
    assert_eq!(
        spot.post_only_order_params("ETHUSDT", "SELL", "2.00000000", "3000.00000000", 5),
        vec!["symbol=ETHUSDT", "side=SELL", "type=LIMIT_MAKER", "quantity=2", "price=3000", "timestamp=5", "recvWindow=5000"]
    );
    assert_eq!(spot.cancel_all_path(), "/api/v3/openOrders");
    assert_eq!(fut.cancel_all_path(), "/fapi/v1/allOpenOrders");
    assert_eq!(spot.account_path(), "/api/v3/account");
    assert_eq!(fut.account_path(), "/fapi/v2/account");
    assert_eq!(spot.positions_path(), None);
    assert_eq!(fut.positions_path(), Some("/fapi/v2/positionRisk"));
    assert_eq!(spot.book_ticker_path(), "/api/v3/ticker/bookTicker");
}
