use chrono::NaiveDate;
use memos_trading_core::robot::data_fetcher::bars::{assemble_bars, keep_latest, usable_bars, RawBar};
use memos_trading_core::robot::data_fetcher::isyatirim::IsYatirimFetcher;
use memos_trading_core::robot::data_fetcher::twelvedata::TwelveDataFetcher;
use memos_trading_core::robot::data_fetcher::yahoo::{ChartNext, ChartReply, YahooFetcher};
use memos_trading_core::robot::data_pipeline::sources::parse_timestamp;

const P: i64 = 1_000_000;
const V: i64 = 1_000;

fn midnight_ms(y: i32, m: u32, d: u32) -> Option<i64> {
    NaiveDate::from_ymd_opt(y, m, d).map(|d| d.and_hms_opt(0, 0, 0).unwrap().and_utc().timestamp_millis())
}

fn row(ts: Option<i64>, o: Option<i64>, h: Option<i64>, l: Option<i64>, c: Option<i64>, v: Option<i64>) -> RawBar {
    RawBar { timestamp: ts, open: o, high: h, low: l, close: c, volume: v }
}

#[test]
fn parse_dates_multi_format() {
    assert_eq!(IsYatirimFetcher::parse_date("18-06-2024"), midnight_ms(2024, 6, 18));
    assert_eq!(IsYatirimFetcher::parse_date("18.06.2024"), midnight_ms(2024, 6, 18));
    assert_eq!(IsYatirimFetcher::parse_date("2024-06-18"), midnight_ms(2024, 6, 18));
    assert_eq!(IsYatirimFetcher::parse_date("saçma"), None);
}

#[test]
fn parse_date_trims_spaces() {
    assert_eq!(IsYatirimFetcher::parse_date("  17-06-2024 "), midnight_ms(2024, 6, 17));
}

#[test]
fn chart_bar_time_needs_positive_seconds() {
    assert_eq!(YahooFetcher::chart_bar_time(1700006400), Some(1_700_006_400_000));
    assert_eq!(YahooFetcher::chart_bar_time(0), None);
    assert_eq!(YahooFetcher::chart_bar_time(-86400), None);
}

#[test]
fn series_bar_time_reads_daily_and_intraday_rows() {
    assert_eq!(TwelveDataFetcher::series_bar_time("2024-06-18"), midnight_ms(2024, 6, 18));
    assert_eq!(TwelveDataFetcher::series_bar_time("2024-06-18 15:30:00"), midnight_ms(2024, 6, 18).map(|t| t + 55_800_000));
    assert_eq!(TwelveDataFetcher::series_bar_time("bad-date"), None);
}

#[test]
fn chart_rows_come_out_ascending() {
    let t0 = YahooFetcher::chart_bar_time(1700006400);
    let t1 = YahooFetcher::chart_bar_time(1700092800);
    let rows = vec![
        row(t1, Some(102 * P), Some(104 * P), Some(101 * P), Some(103_500_000), Some(1200 * V)),
        row(t0, Some(100 * P), Some(103 * P), Some(99 * P), Some(102 * P), Some(1000 * V)),
    ];
    let c = assemble_bars(&rows, "THYAO", "1d");
    assert_eq!(c.len(), 2);
    assert_eq!(c[0].symbol, "THYAO");
    assert!(c[0].timestamp < c[1].timestamp);
    assert_eq!(c[0].close, 102 * P);
    assert_eq!(c[1].close, 103_500_000);
}

#[test]
fn rows_missing_a_price_are_skipped() {
    let rows = vec![
        row(Some(1_000), Some(100 * P), Some(103 * P), Some(99 * P), Some(102 * P), Some(1000 * V)),
        row(Some(2_000), None, None, None, None, None),
        row(Some(3_000), Some(105 * P), Some(106 * P), Some(104 * P), Some(105_500_000), Some(900 * V)),
        row(None, Some(1 * P), Some(1 * P), Some(1 * P), Some(1 * P), Some(1)),
    ];
    let c = assemble_bars(&rows, "X", "1d");
    assert_eq!(c.len(), 2);
    assert_eq!(c[0].timestamp, 1_000);
    assert_eq!(c[1].timestamp, 3_000);
}

#[test]
fn missing_volume_reads_as_zero() {
    let rows = vec![row(Some(5), Some(1_070_000), Some(1_080_000), Some(1_060_000), Some(1_075_000), None)];
    let c = usable_bars(&rows, "EURUSD", "1d");
    assert_eq!(c.len(), 1);
    assert_eq!(c[0].volume, 0);
    assert_eq!(c[0].close, 1_075_000);
}

#[test]
fn rows_failing_the_ohlcv_check_are_skipped() {
    let rows = vec![
        row(Some(1), Some(0), Some(0), Some(0), Some(0), Some(0)),
        row(Some(2), Some(10 * P), Some(9 * P), Some(8 * P), Some(10 * P), Some(0)),
        row(Some(3), Some(10 * P), Some(11 * P), Some(9 * P), Some(10 * P), Some(-1)),
        row(Some(4), Some(10 * P), Some(11 * P), Some(9 * P), Some(10 * P), Some(7)),
    ];
    let c = usable_bars(&rows, "X", "1h");
    assert_eq!(c.len(), 1);
    assert_eq!(c[0].timestamp, 4);
    assert_eq!(c[0].interval, "1h");
}

#[test]
fn equal_times_keep_row_order() {
    let rows = vec![
        row(Some(9), Some(2 * P), Some(2 * P), Some(2 * P), Some(2 * P), Some(1)),
        row(Some(5), Some(1 * P), Some(1 * P), Some(1 * P), Some(1 * P), Some(2)),
        row(Some(5), Some(3 * P), Some(3 * P), Some(3 * P), Some(3 * P), Some(3)),
    ];
    let c = assemble_bars(&rows, "X", "1d");
    let vols: Vec<i64> = c.iter().map(|b| b.volume).collect();
    assert_eq!(vols, vec![2, 3, 1]);
}

#[test]
fn hisse_rows_are_sorted_deduplicated_and_clamped() {
    let d17 = IsYatirimFetcher::parse_date("17-06-2024");
    let d18 = IsYatirimFetcher::parse_date("18-06-2024");
    let rows = vec![
        row(d18, Some(303_500_000), Some(308 * P), Some(302 * P), Some(307 * P), Some(1_200_000 * V)),
        row(d17, Some(300 * P), Some(305 * P), Some(298 * P), Some(303_500_000), Some(-5)),
        row(IsYatirimFetcher::parse_date("bad"), Some(P), Some(P), Some(P), Some(P), None),
        row(d18, Some(1 * P), Some(1 * P), Some(1 * P), Some(1 * P), None),
        row(d17, Some(0), Some(0), Some(0), Some(0), None),
    ];
    let c = IsYatirimFetcher::hisse_candles(&rows, "THYAO", "1d");
    assert_eq!(c.len(), 2);
    assert!(c[0].timestamp < c[1].timestamp);
    assert_eq!(c[0].close, 303_500_000);
    assert_eq!(c[0].volume, 0);
    assert_eq!(c[1].close, 307 * P);
    assert_eq!(c[1].symbol, "THYAO");
}

#[test]
fn stored_times_read_seconds_millis_and_rfc3339() {
    assert_eq!(parse_timestamp("1700000000"), Some(1_700_000_000_000));
    assert_eq!(parse_timestamp("9999999998"), Some(9_999_999_998_000));
    assert_eq!(parse_timestamp("9999999999"), Some(9_999_999_999));
    assert_eq!(parse_timestamp("1700000000123"), Some(1_700_000_000_123));
    assert_eq!(parse_timestamp("-60"), Some(-60_000));
    assert_eq!(parse_timestamp("2024-06-18T00:00:00Z"), midnight_ms(2024, 6, 18));
    assert_eq!(parse_timestamp("2024-06-18T03:00:00+03:00"), midnight_ms(2024, 6, 18));
    assert_eq!(parse_timestamp("yesterday"), None);
}

#[test]
fn chart_retries_rotate_hosts() {
    assert_eq!(YahooFetcher::first_chart_request(), ChartNext::Request { wait_ms: 0, host: 0, attempt: 1 });
    assert_eq!(YahooFetcher::chart_next(0, 1, ChartReply::ServerError), ChartNext::Request { wait_ms: 1000, host: 0, attempt: 2 });
    assert_eq!(YahooFetcher::chart_next(0, 2, ChartReply::NetworkError), ChartNext::Request { wait_ms: 1000, host: 0, attempt: 3 });
    assert_eq!(YahooFetcher::chart_next(0, 3, ChartReply::ServerError), ChartNext::Request { wait_ms: 3000, host: 1, attempt: 1 });
    assert_eq!(YahooFetcher::chart_next(0, 2, ChartReply::RateLimited), ChartNext::Request { wait_ms: 0, host: 1, attempt: 1 });
    assert_eq!(YahooFetcher::chart_next(1, 1, ChartReply::RateLimited), ChartNext::Exhausted);
    assert_eq!(YahooFetcher::chart_next(1, 3, ChartReply::NetworkError), ChartNext::Exhausted);
    assert_eq!(YahooFetcher::chart_next(1, 2, ChartReply::Success), ChartNext::Parse);
    assert_eq!(YahooFetcher::chart_next(0, 1, ChartReply::Failed), ChartNext::Fail);
}

#[test]
fn latest_range_and_tail() {
    assert_eq!(YahooFetcher::range_for_limit(1301), "10y");
    assert_eq!(YahooFetcher::range_for_limit(1300), "5y");
    assert_eq!(YahooFetcher::range_for_limit(261), "5y");
    assert_eq!(YahooFetcher::range_for_limit(260), "2y");
    let rows = vec![
        row(Some(1), Some(P), Some(P), Some(P), Some(P), None),
        row(Some(2), Some(P), Some(P), Some(P), Some(P), None),
        row(Some(3), Some(P), Some(P), Some(P), Some(P), None),
    ];
    let c = keep_latest(assemble_bars(&rows, "X", "1d"), 2);
    assert_eq!(c.iter().map(|b| b.timestamp).collect::<Vec<_>>(), vec![2, 3]);
    let all = keep_latest(assemble_bars(&rows, "X", "1d"), 5);
    assert_eq!(all.len(), 3);
}

#[test]
fn parse_timestamp_reads_signed_numbers() {
    assert_eq!(parse_timestamp("+1700000000"), Some(1_700_000_000_000));
    assert_eq!(parse_timestamp("-60"), Some(-60_000));
    assert_eq!(parse_timestamp("-0"), Some(0));
    assert_eq!(parse_timestamp("-"), None);
    assert_eq!(parse_timestamp("+"), None);
    assert_eq!(parse_timestamp("12a"), None);
    assert_eq!(parse_timestamp("9223372036854775808"), None);
}
