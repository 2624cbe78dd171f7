use vstd::prelude::*;
use vstd::string::StringExecFns;
use crate::calendar::{utc_from_secs, utc_secs_millis};
use crate::text::{lowercase, str_ends_with, str_equals, to_lower, trim_str, trimmed};
use std::time::Duration;

verus! {

/// Browser user agent sent to Yahoo.
pub const YAHOO_UA: &'static str = "Mozilla/5.0 (X11; Linux x86_64) AppleWebKit/537.36 (KHTML, like Gecko) Chrome/122.0.0.0 Safari/537.36";

/// Seconds before a Yahoo request times out.
pub const YAHOO_TIMEOUT_SECS: u64 = 12;

/// `reqwest::Client::builder().user_agent(..).timeout(..).build()`, `None` when
/// building fails. Nothing is stated of the client.
#[verifier::external_body]
fn http_client_with_agent(user_agent: &str, timeout_secs: u64) -> Option<reqwest::Client> {
    reqwest::Client::builder().user_agent(user_agent).timeout(Duration::from_secs(timeout_secs)).build().ok()
}

/// Number of chart hosts tried in turn (`query1`, then `query2`).
pub const YAHOO_HOST_COUNT: usize = 2;

/// Requests made to one host before moving to the next.
pub const MAX_RETRIES: usize = 3;

/// Chart host by its turn.
pub fn yahoo_host(i: usize) -> (r: &'static str)
    requires
        i < YAHOO_HOST_COUNT,
    ensures
        r@ == (if i == 0 { "query1.finance.yahoo.com"@ } else { "query2.finance.yahoo.com"@ }),
{
    if i == 0 {
        "query1.finance.yahoo.com"
    } else {
        "query2.finance.yahoo.com"
    }
}

/// How one chart request ended.
#[derive(Debug, Clone, Copy, PartialEq, Eq, Structural)]
pub enum ChartReply {
    /// No reply (connection or transport error).
    NetworkError,
    /// HTTP 429: this host throttles us.
    RateLimited,
    /// HTTP 5xx.
    ServerError,
    /// Another HTTP status that is not a success.
    Failed,
    /// A successful reply.
    Success,
}

/// What to do after a chart request.
#[derive(Debug, Clone, Copy, PartialEq, Eq, Structural)]
pub enum ChartNext {
    /// Wait `wait_ms` milliseconds, then make request `attempt` (counted from 1) to
    /// host `host`.
    Request { wait_ms: u64, host: usize, attempt: usize },
    /// Read the reply as a chart.
    Parse,
    /// Stop with the HTTP error of this reply.
    Fail,
    /// Every host was tried: stop with the last recorded error.
    Exhausted,
}

/// The request after `(host, attempt)` once `wait_ms` has passed: the next attempt
/// on the same host, or the first on the next host, or none.
pub open spec fn next_request(wait_ms: u64, host: usize, attempt: usize) -> ChartNext {
    if attempt < MAX_RETRIES {
        ChartNext::Request { wait_ms, host, attempt: (attempt + 1) as usize }
    } else if host + 1 < YAHOO_HOST_COUNT {
        ChartNext::Request { wait_ms, host: (host + 1) as usize, attempt: 1 }
    } else {
        ChartNext::Exhausted
    }
}

/// Host rotation with retries: a success is parsed and another failing status
/// stops; a 429 moves on to the next host at once; a 5xx waits `attempt` seconds
/// and a network error `500 × attempt` milliseconds before the next request, which
/// is the next attempt on the same host while fewer than `MAX_RETRIES` were made.
pub open spec fn chart_next_spec(host: usize, attempt: usize, reply: ChartReply) -> ChartNext {
    match reply {
        ChartReply::Success => ChartNext::Parse,
        ChartReply::Failed => ChartNext::Fail,
        ChartReply::RateLimited => if host + 1 < YAHOO_HOST_COUNT {
            ChartNext::Request { wait_ms: 0, host: (host + 1) as usize, attempt: 1 }
        } else {
            ChartNext::Exhausted
        },
        ChartReply::ServerError => next_request((attempt * 1000) as u64, host, attempt),
        ChartReply::NetworkError => next_request((attempt * 500) as u64, host, attempt),
    }
}

/// Yahoo Finance chart client.
pub struct YahooFetcher {
    /// The HTTP client; `None` when it could not be built.
    pub client: Option<reqwest::Client>,
}

/// `s` ends with `suffix`.
pub open spec fn ends_with_spec(s: Seq<char>, suffix: Seq<char>) -> bool {
    suffix.len() <= s.len() && s.subrange(s.len() - suffix.len(), s.len() as int) == suffix
}

/// Yahoo ticker of a base symbol (already trimmed, with its asset class lowercased):
/// a base already carrying `.IS`, `=X` or `=F` is kept; Turkish equities get `.IS`,
/// currencies `=X`, commodities `=F`; anything else is the bare base.
pub open spec fn yahoo_ticker_spec(class_lower: Seq<char>, b: Seq<char>) -> Seq<char> {
    if ends_with_spec(b, ".IS"@) || ends_with_spec(b, "=X"@) || ends_with_spec(b, "=F"@) {
        b
    } else if class_lower == "bist"@ || class_lower == "equity_tr"@ {
        b + ".IS"@
    } else if class_lower == "forex"@ || class_lower == "fx"@ {
        b + "=X"@
    } else if class_lower == "commodity"@ || class_lower == "comm"@ || class_lower == "gold"@ {
        b + "=F"@
    } else {
        b
    }
}

impl YahooFetcher {
    pub fn new() -> (r: Self) {
        YahooFetcher { client: http_client_with_agent(YAHOO_UA, YAHOO_TIMEOUT_SECS) }
    }

    /// Yahoo ticker of a base symbol for an asset class (`yahoo_ticker_spec` of the
    /// lowercased class and the trimmed base).
    pub fn yahoo_ticker(asset_class: &str, base: &str) -> (r: String)
        ensures
            r@ == yahoo_ticker_spec(lowercase(asset_class@), trimmed(base@)),
    {
        let b = trim_str(base);
        if str_ends_with(b, ".IS") || str_ends_with(b, "=X") || str_ends_with(b, "=F") {
            return String::from_str(b);
        }
        let class = to_lower(asset_class);
        let c = class.as_str();
        let mut out = String::from_str(b);
        if str_equals(c, "bist") || str_equals(c, "equity_tr") {
            out.append(".IS");
        } else if str_equals(c, "forex") || str_equals(c, "fx") {
            out.append("=X");
        } else if str_equals(c, "commodity") || str_equals(c, "comm") || str_equals(c, "gold") {
            out.append("=F");
        }
        out
    }
}

impl YahooFetcher {
    /// Epoch milliseconds of a chart bar from its timestamp in seconds: a timestamp
    /// that is not positive, or that chrono cannot place, gives no time.
    pub fn chart_bar_time(ts_sec: i64) -> (r: Option<i64>)
        ensures
            r == (if ts_sec > 0 { utc_secs_millis(ts_sec) } else { None }),
            r matches Some(ms) ==> ms == ts_sec * 1000,
            0 < ts_sec <= 253_402_300_799 ==> r is Some,
    {
        if ts_sec > 0 {
            utc_from_secs(ts_sec)
        } else {
            None
        }
    }
}

impl YahooFetcher {
    /// The first chart request: host 0, attempt 1, at once.
    pub fn first_chart_request() -> (r: ChartNext)
        ensures
            r == (ChartNext::Request { wait_ms: 0, host: 0, attempt: 1 }),
    {
        ChartNext::Request { wait_ms: 0, host: 0, attempt: 1 }
    }

    /// What to do after request `attempt` to host `host` ended with `reply` (see
    /// `chart_next_spec`).
    pub fn chart_next(host: usize, attempt: usize, reply: ChartReply) -> (r: ChartNext)
        requires
            host < YAHOO_HOST_COUNT,
            1 <= attempt <= MAX_RETRIES,
        ensures
            r == chart_next_spec(host, attempt, reply),
    {
        let wait_ms: u64 = match reply {
            ChartReply::ServerError => (attempt as u64) * 1000,
            ChartReply::NetworkError => (attempt as u64) * 500,
            _ => 0,
        };
        match reply {
            ChartReply::Success => ChartNext::Parse,
            ChartReply::Failed => ChartNext::Fail,
            ChartReply::RateLimited => {
                if host + 1 < YAHOO_HOST_COUNT {
                    ChartNext::Request { wait_ms: 0, host: host + 1, attempt: 1 }
                } else {
                    ChartNext::Exhausted
                }
            },
            _ => {
                if attempt < MAX_RETRIES {
                    ChartNext::Request { wait_ms, host, attempt: attempt + 1 }
                } else if host + 1 < YAHOO_HOST_COUNT {
                    ChartNext::Request { wait_ms, host: host + 1, attempt: 1 }
                } else {
                    ChartNext::Exhausted
                }
            },
        }
    }

    /// Chart range requested for the latest `limit` daily bars: `10y` above 1300
    /// bars, `5y` above 260, `2y` otherwise.
    pub fn range_for_limit(limit: usize) -> (r: &'static str)
        ensures
            r@ == (if limit > 1300 { "10y"@ } else if limit > 260 { "5y"@ } else { "2y"@ }),
    {
        if limit > 1300 {
            "10y"
        } else if limit > 260 {
            "5y"
        } else {
            "2y"
        }
    }
}

/// Host rotation ends: every request plan stays within the hosts and attempts, and
/// each step moves strictly forward in (host, attempt) order, so at most
/// `YAHOO_HOST_COUNT × MAX_RETRIES` requests are made.
pub proof fn law_chart_requests_move_forward(host: usize, attempt: usize, reply: ChartReply)
    requires
        host < YAHOO_HOST_COUNT,
        1 <= attempt <= MAX_RETRIES,
    ensures
        chart_next_spec(host, attempt, reply) matches ChartNext::Request { wait_ms, host: h, attempt: a } ==> {
            &&& h < YAHOO_HOST_COUNT
            &&& 1 <= a <= MAX_RETRIES
            &&& h * MAX_RETRIES + a > host * MAX_RETRIES + attempt
        },
{
}

impl Default for YahooFetcher {
    fn default() -> (r: Self) {
        YahooFetcher::new()
    }
}

} // verus!
