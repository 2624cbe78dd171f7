use vstd::prelude::*;
use crate::calendar::{parse_date_millis, parsed_date_millis};
use crate::robot::data_fetcher::bars::{RawBar, usable_bars, usable_candles};
use crate::robot::data_pipeline::time_order::{sort_dedup, sort_dedup_spec};
use crate::text::{trim_str, trimmed};
use crate::types::{Candle, candles_view};
use std::time::Duration;

verus! {

/// Browser user agent sent to İş Yatırım.
pub const ISY_UA: &'static str = "Mozilla/5.0 (Windows NT 10.0; Win64; x64) AppleWebKit/537.36 (KHTML, like Gecko) Chrome/122.0.0.0 Safari/537.36";

/// Page the requests claim to come from.
pub const ISY_REFERER: &'static str = "https://www.isyatirim.com.tr/tr-tr/analiz/hisse/Sayfalar/default.aspx";

/// Accepted reply types.
pub const ISY_ACCEPT: &'static str = "application/json, text/plain, */*";

/// Value of the `X-Requested-With` header.
pub const ISY_REQUESTED_WITH: &'static str = "XMLHttpRequest";

/// Seconds before an İş Yatırım request times out.
pub const ISY_TIMEOUT_SECS: u64 = 20;

/// `reqwest::Client::builder()` with a user agent, default `Accept`, `Referer` and
/// `X-Requested-With` headers (a value that is not a valid header is left out)
/// and a timeout; `None` when building fails. Nothing is stated of the client.
#[verifier::external_body]
fn http_client_with_headers(user_agent: &str, accept: &str, referer: &str, requested_with: &str, timeout_secs: u64) -> Option<reqwest::Client> {
    let mut headers = reqwest::header::HeaderMap::new();
    if let Ok(v) = reqwest::header::HeaderValue::from_str(accept) { headers.insert(reqwest::header::ACCEPT, v); }
    if let Ok(v) = reqwest::header::HeaderValue::from_str(referer) { headers.insert(reqwest::header::REFERER, v); }
    if let Ok(v) = reqwest::header::HeaderValue::from_str(requested_with) { headers.insert("X-Requested-With", v); }
    reqwest::Client::builder().user_agent(user_agent).default_headers(headers)
        .timeout(Duration::from_secs(timeout_secs)).build().ok()
}

/// İş Yatırım daily-bar client (Borsa İstanbul).
pub struct IsYatirimFetcher {
    /// The HTTP client; `None` when it could not be built.
    pub client: Option<reqwest::Client>,
}

/// The date of a `HGDG_TARIH` field, already trimmed: `"DD-MM-YYYY"`, then
/// `"DD.MM.YYYY"`, then `"YYYY-MM-DD"`.
pub open spec fn hisse_date_spec(s: Seq<char>) -> Option<i64> {
    match parsed_date_millis(s, "%d-%m-%Y"@) {
        Some(t) => Some(t),
        None => match parsed_date_millis(s, "%d.%m.%Y"@) {
            Some(t) => Some(t),
            None => parsed_date_millis(s, "%Y-%m-%d"@),
        },
    }
}

/// A row with its volume made non-negative: a negative volume reads as zero.
pub open spec fn clamp_volume(b: RawBar) -> RawBar {
    RawBar {
        volume: match b.volume {
            Some(v) => Some(if v < 0 { 0 } else { v }),
            None => None,
        },
        ..b
    }
}

impl IsYatirimFetcher {
    pub fn new() -> (r: Self) {
        IsYatirimFetcher {
            client: http_client_with_headers(ISY_UA, ISY_ACCEPT, ISY_REFERER, ISY_REQUESTED_WITH, ISY_TIMEOUT_SECS),
        }
    }

    /// Epoch milliseconds (midnight UTC) of a `HGDG_TARIH` date; the formats seen
    /// are `"DD-MM-YYYY"`, `"DD.MM.YYYY"` and `"YYYY-MM-DD"`, tried in that order on
    /// the trimmed text.
    pub fn parse_date(s: &str) -> (r: Option<i64>)
        ensures
            r == hisse_date_spec(trimmed(s@)),
    {
        let t = trim_str(s);
        match parse_date_millis(t, "%d-%m-%Y") {
            Some(d) => Some(d),
            None => match parse_date_millis(t, "%d.%m.%Y") {
                Some(d) => Some(d),
                None => parse_date_millis(t, "%Y-%m-%d"),
            },
        }
    }

    /// The bars of a `HisseTekno` reply's rows: a negative volume reads as zero,
    /// the usable rows (see `usable_bars`) are kept, stably sorted by date, and of
    /// several bars of one date only the first is kept.
    pub fn hisse_candles(rows: &Vec<RawBar>, out_symbol: &str, interval: &str) -> (r: Vec<Candle>)
        ensures
            candles_view(r@) == sort_dedup_spec(
                usable_candles(rows@.map_values(|b: RawBar| clamp_volume(b)), out_symbol@, interval@),
                false,
            ),
    {
        let mut clamped: Vec<RawBar> = Vec::new();
        let mut k: usize = 0;
        while k < rows.len()
            invariant
                0 <= k <= rows.len(),
                clamped@ == rows@.take(k as int).map_values(|b: RawBar| clamp_volume(b)),
            decreases rows.len() - k,
        {
            let b = rows[k];
            let volume = match b.volume {
                Some(v) => Some(if v < 0 { 0 } else { v }),
                None => None,
            };
            clamped.push(RawBar { volume, ..b });
            assert(rows@.take(k as int + 1).map_values(|b: RawBar| clamp_volume(b)) =~= rows@.take(k as int).map_values(
                |b: RawBar| clamp_volume(b),
            ).push(clamp_volume(rows@[k as int])));
            k = k + 1;
        }
        assert(rows@.take(rows@.len() as int) =~= rows@);
        let bars = usable_bars(&clamped, out_symbol, interval);
        sort_dedup(&bars, false)
    }
}

impl Default for IsYatirimFetcher {
    fn default() -> (r: Self) {
        IsYatirimFetcher::new()
    }
}

} // verus!
