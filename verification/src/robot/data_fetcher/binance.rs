use vstd::prelude::*;
use vstd::string::StringExecFns;
use crate::calendar::{utc_from_millis, utc_millis};
use crate::robot::data_fetcher::twelvedata::http_client_with_timeout;
use crate::text::{ascii_lower_char, decimal_i64, i64_to_text, str_eq_ignore_ascii_case, str_starts_with};

verus! {

/// Prefix of a klines/funding fetch error that really means "the symbol is not on
/// the exchange" (delisted or invalid), as opposed to a transient failure.
pub const DELISTING_ERR_PREFIX: &'static str = "Binance Sembol Yok";

/// Prefix of a fetch error the exchange reported for any other reason.
pub const TRANSIENT_API_ERR_PREFIX: &'static str = "Binance Geçici API Hatası";

/// Error code with which the exchange answers an unknown symbol.
pub const INVALID_SYMBOL_CODE: i64 = -1121;

/// Most items one history request returns.
pub const PAGE_LIMIT: usize = 1000;

/// Seconds before a Binance request times out.
pub const BINANCE_TIMEOUT_SECS: u64 = 15;

/// `err` starts with the delisting prefix.
pub open spec fn is_delisting_message(err: Seq<char>) -> bool {
    DELISTING_ERR_PREFIX@.len() <= err.len() && err.subrange(0, DELISTING_ERR_PREFIX@.len() as int) == DELISTING_ERR_PREFIX@
}

/// Whether a fetch error message signals a real delisting (worth purging the
/// symbol) rather than a transient error (rate limit, connection, decode).
pub fn fetch_error_is_delisting(err: &str) -> (r: bool)
    ensures
        r == is_delisting_message(err@),
{
    str_starts_with(err, DELISTING_ERR_PREFIX)
}

/// The message of an error object the exchange answered with: the delisting
/// prefix for an unknown symbol, the transient prefix for any other code.
pub open spec fn api_error_spec(symbol: Seq<char>, code: i64, msg: Seq<char>) -> Seq<char> {
    (if code == INVALID_SYMBOL_CODE { DELISTING_ERR_PREFIX@ } else { TRANSIENT_API_ERR_PREFIX@ }) + ": "@ + symbol
        + " (code "@ + decimal_i64(code) + " "@ + msg + ")"@
}

/// The message of a latest-bars request that returned no usable bar: the symbol
/// exists but yields no data, which counts as a delisting.
pub open spec fn no_bars_spec(symbol: Seq<char>) -> Seq<char> {
    DELISTING_ERR_PREFIX@ + ": "@ + symbol + " (geçerli mum verisi alınamadı)"@
}

/// Error message for an error object (`{"code":..,"msg":..}`) the exchange sent in
/// place of the data.
pub fn api_error_message(symbol: &str, code: i64, msg: &str) -> (r: String)
    ensures
        r@ == api_error_spec(symbol@, code, msg@),
{
    let mut out = if code == INVALID_SYMBOL_CODE {
        String::from_str(DELISTING_ERR_PREFIX)
    } else {
        String::from_str(TRANSIENT_API_ERR_PREFIX)
    };
    out.append(": ");
    out.append(symbol);
    out.append(" (code ");
    let c = i64_to_text(code);
    out.append(c.as_str());
    out.append(" ");
    out.append(msg);
    out.append(")");
    out
}

/// Error message for a latest-bars request that returned no usable bar.
pub fn no_bars_message(symbol: &str) -> (r: String)
    ensures
        r@ == no_bars_spec(symbol@),
{
    let mut out = String::from_str(DELISTING_ERR_PREFIX);
    out.append(": ");
    out.append(symbol);
    out.append(" (geçerli mum verisi alınamadı)");
    out
}

/// Classification has one source: an error built for an error object counts as a
/// delisting exactly when its code is the unknown-symbol code, and an empty
/// latest-bars reply always counts as one.
pub proof fn law_error_classification(symbol: Seq<char>, code: i64, msg: Seq<char>)
    ensures
        is_delisting_message(api_error_spec(symbol, code, msg)) == (code == INVALID_SYMBOL_CODE),
        is_delisting_message(no_bars_spec(symbol)),
{
    reveal_strlit("Binance Sembol Yok");
    reveal_strlit("Binance Geçici API Hatası");
    let n = DELISTING_ERR_PREFIX@.len() as int;
    let a = api_error_spec(symbol, code, msg);
    if code == INVALID_SYMBOL_CODE {
        assert(a.subrange(0, n) =~= DELISTING_ERR_PREFIX@);
    } else {
        assert(a[8] == TRANSIENT_API_ERR_PREFIX@[8]);
        assert(a.subrange(0, n)[8] != DELISTING_ERR_PREFIX@[8]);
    }
    assert(no_bars_spec(symbol).subrange(0, n) =~= DELISTING_ERR_PREFIX@);
}

/// The market name is `futures`, ignoring ASCII case.
pub open spec fn is_futures_spec(market: Seq<char>) -> bool {
    market.len() == 7 && forall|i: int| 0 <= i < 7 ==> ascii_lower_char(#[trigger] market[i]) == "futures"@[i]
}

/// Whether a market name is `futures` (any ASCII case); every other market is spot.
pub fn is_futures_market(market: &str) -> (r: bool)
    ensures
        r == is_futures_spec(market@),
{
    proof {
        reveal_strlit("futures");
        assert forall|i: int| 0 <= i < 7 implies ascii_lower_char(#[trigger] "futures"@[i]) == "futures"@[i] by {
        }
    }
    str_eq_ignore_ascii_case(market, "futures")
}

/// The latest of a nonempty list of times.
pub open spec fn latest_time(times: Seq<i64>) -> i64
    decreases times.len(),
{
    if times.len() <= 1 {
        times[0]
    } else {
        let rest = latest_time(times.drop_last());
        if times.last() > rest { times.last() } else { rest }
    }
}

/// Where a forward history pagination stands: the start time of the next request,
/// the step from a page's latest item to the next start, the time paging stops at,
/// the requests still allowed, and whether paging is over.
#[derive(Debug, Clone, Copy, PartialEq, Eq, Structural)]
pub struct Pagination {
    pub cursor: i64,
    pub step_ms: i64,
    pub now_ms: i64,
    pub requests_left: usize,
    pub done: bool,
}

/// Paging state after a page whose items are at `times`: an empty page ends it;
/// otherwise the next start is one step past the latest item, and paging ends
/// when that does not move forward (or leaves `i64`) or when the page was not full.
pub open spec fn after_page(p: Pagination, times: Seq<i64>) -> Pagination {
    if times.len() == 0 {
        Pagination { done: true, ..p }
    } else {
        let next = latest_time(times) + p.step_ms;
        if next <= p.cursor || next > i64::MAX {
            Pagination { done: true, ..p }
        } else {
            Pagination { cursor: next as i64, done: times.len() < PAGE_LIMIT, ..p }
        }
    }
}

impl Pagination {
    /// Paging from `start_ms` (a negative start counts as 0) with at most
    /// `max_requests` requests, and at least one.
    pub fn start(start_ms: i64, step_ms: i64, now_ms: i64, max_requests: usize) -> (r: Self)
        ensures
            r == (Pagination {
                cursor: if start_ms < 0 { 0 } else { start_ms },
                step_ms,
                now_ms,
                requests_left: if max_requests == 0 { 1 } else { max_requests },
                done: false,
            }),
    {
        Pagination {
            cursor: if start_ms < 0 { 0 } else { start_ms },
            step_ms,
            now_ms,
            requests_left: if max_requests == 0 { 1 } else { max_requests },
            done: false,
        }
    }

    /// Bar history paging: each next start lies one interval (of at least one
    /// second) past the latest bar.
    pub fn for_bars(start_ms: i64, iv_secs: i64, now_ms: i64, max_requests: usize) -> (r: Self)
        requires
            iv_secs <= i64::MAX / 1000,
        ensures
            r == Pagination::start_spec(start_ms, (if iv_secs < 1 { 1 } else { iv_secs }) * 1000, now_ms, max_requests),
    {
        let iv = if iv_secs < 1 { 1 } else { iv_secs };
        Pagination::start(start_ms, iv * 1000, now_ms, max_requests)
    }

    /// Funding history paging: funding times are distinct, so each next start lies
    /// one millisecond past the latest record.
    pub fn for_funding(start_ms: i64, now_ms: i64, max_requests: usize) -> (r: Self)
        ensures
            r == Pagination::start_spec(start_ms, 1, now_ms, max_requests),
    {
        Pagination::start(start_ms, 1, now_ms, max_requests)
    }

    /// The state `start` gives.
    pub open spec fn start_spec(start_ms: i64, step_ms: int, now_ms: i64, max_requests: usize) -> Pagination {
        Pagination {
            cursor: if start_ms < 0 { 0 } else { start_ms },
            step_ms: step_ms as i64,
            now_ms,
            requests_left: if max_requests == 0 { 1 } else { max_requests },
            done: false,
        }
    }

    /// Start time of the next request, which uses up one of those allowed; `None`,
    /// with paging over, once it ended, no request is left or the cursor reached
    /// `now_ms`.
    pub fn next_request(&mut self) -> (r: Option<i64>)
        ensures
            r == (if old(self).done || old(self).requests_left == 0 || old(self).cursor >= old(self).now_ms {
                None
            } else {
                Some(old(self).cursor)
            }),
            r is Some ==> *final(self) == (Pagination { requests_left: (old(self).requests_left - 1) as usize, ..*old(self) }),
            r is None ==> *final(self) == (Pagination { done: true, ..*old(self) }),
    {
        if self.done || self.requests_left == 0 || self.cursor >= self.now_ms {
            self.done = true;
            None
        } else {
            self.requests_left = self.requests_left - 1;
            Some(self.cursor)
        }
    }

    /// Records a page whose items are at `times` (see `after_page`).
    pub fn record_page(&mut self, times: &Vec<i64>)
        ensures
            *final(self) == after_page(*old(self), times@),
    {
        if times.len() == 0 {
            self.done = true;
            return;
        }
        let mut latest = times[0];
        let mut k: usize = 1;
        while k < times.len()
            invariant
                1 <= k <= times.len(),
                latest == latest_time(times@.take(k as int)),
            decreases times.len() - k,
        {
            proof {
                assert(times@.take(k as int + 1).drop_last() =~= times@.take(k as int));
            }
            if times[k] > latest {
                latest = times[k];
            }
            k = k + 1;
        }
        assert(times@.take(times@.len() as int) =~= times@);
        match latest.checked_add(self.step_ms) {
            Some(next) => {
                if next <= self.cursor {
                    self.done = true;
                } else {
                    self.cursor = next;
                    self.done = times.len() < PAGE_LIMIT;
                }
            },
            None => {
                self.done = true;
            },
        }
    }

    /// A request failed: paging ends (what was gathered is kept).
    pub fn record_failure(&mut self)
        ensures
            *final(self) == (Pagination { done: true, ..*old(self) }),
    {
        self.done = true;
    }
}

/// Paging always moves on: after a page, either paging is over or the next
/// request starts strictly later, and never before the page's latest item.
pub proof fn law_paging_moves_forward(p: Pagination, times: Seq<i64>)
    requires
        p.step_ms >= 1,
    ensures
        after_page(p, times).done || (after_page(p, times).cursor > p.cursor && after_page(p, times).cursor > latest_time(times)),
        after_page(p, times).requests_left == p.requests_left,
{
}

/// Binance REST client for bar and funding history.
pub struct BinanceFetcher {
    /// The HTTP client; `None` when it could not be built.
    pub client: Option<reqwest::Client>,
}

impl BinanceFetcher {
    pub fn new() -> (r: Self) {
        BinanceFetcher { client: http_client_with_timeout(BINANCE_TIMEOUT_SECS) }
    }

    /// Klines endpoint of a market: the futures API for `futures` (any ASCII case),
    /// the spot API otherwise.
    pub fn klines_base(market: &str) -> (r: &'static str)
        ensures
            r@ == (if is_futures_spec(market@) {
                "https://fapi.binance.com/fapi/v1/klines"@
            } else {
                "https://api.binance.com/api/v3/klines"@
            }),
    {
        if is_futures_market(market) {
            "https://fapi.binance.com/fapi/v1/klines"
        } else {
            "https://api.binance.com/api/v3/klines"
        }
    }

    /// Time of a kline row from its open time in milliseconds: a time that is not
    /// positive, or that chrono cannot place, gives none.
    pub fn kline_bar_time(ts_ms: i64) -> (r: Option<i64>)
        ensures
            r == (if ts_ms > 0 && utc_millis(ts_ms) is Some { Some(ts_ms) } else { None }),
            0 < ts_ms <= 253_402_300_799_999 ==> r == Some(ts_ms),
    {
        if ts_ms > 0 {
            match utc_from_millis(ts_ms) {
                Some(_) => Some(ts_ms),
                None => None,
            }
        } else {
            None
        }
    }
}

impl Default for BinanceFetcher {
    fn default() -> (r: Self) {
        BinanceFetcher::new()
    }
}

} // verus!
