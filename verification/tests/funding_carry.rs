use memos_trading_core::robot::backtester::funding_carry::funding_bucket_index;

#[test]
fn funding_buckets_to_closing_bar() {
    let stamps = [100i64, 200, 300];
    let assign = |ft: i64| funding_bucket_index(&stamps, ft);
    assert_eq!(assign(150), 1);
    assert_eq!(assign(200), 1, "equal stamp belongs to that bar");
    assert_eq!(assign(300), 2);
    assert_eq!(assign(350), 3, "past the last bar gives n (dropped)");
}

#[test]
fn funding_bucket_before_first_bar_is_zero() {
    assert_eq!(funding_bucket_index(&[100, 200], 50), 0);
    assert_eq!(funding_bucket_index(&[], 50), 0);
}
