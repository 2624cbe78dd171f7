use vstd::prelude::*;
use vstd::string::StringExecFns;
use vstd::utf8::{decode_utf8, encode_utf8, is_char_boundary};
use vstd::string::StringSliceAdditionalSpecFns;
use crate::calendar::{parse_date_millis, parse_datetime_millis, parsed_date_millis, parsed_datetime_millis};
use crate::text::{lowercase, replace_char, str_contains_char, str_equals, str_replace_char, to_lower, trim_str, trimmed};
use std::time::Duration;

verus! {

/// Seconds before a TwelveData request times out.
pub const TD_TIMEOUT_SECS: u64 = 20;

/// `reqwest::Client::builder().timeout(..).build()`, `None` when building fails
/// (no TLS backend, resolver configuration unreadable). Nothing is stated of the
/// client.
#[verifier::external_body]
pub(crate) fn http_client_with_timeout(timeout_secs: u64) -> Option<reqwest::Client> {
    reqwest::Client::builder().timeout(Duration::from_secs(timeout_secs)).build().ok()
}

/// A symbol made safe for a query string: `/` as `%2F`, space as `%20`.
pub open spec fn urlencoding_spec(s: Seq<char>) -> Seq<char> {
    replace_char(replace_char(s, '/', "%2F"@), ' ', "%20"@)
}

/// Escapes `/` and spaces of a symbol for a query string.
pub fn urlencoding(s: &str) -> (r: String)
    ensures
        r@ == urlencoding_spec(s@),
{
    let a = str_replace_char(s, '/', "%2F");
    str_replace_char(a.as_str(), ' ', "%20")
}

/// TwelveData client.
pub struct TwelveDataFetcher {
    pub api_key: String,
    /// The HTTP client; `None` when it could not be built.
    pub client: Option<reqwest::Client>,
}

/// TwelveData interval name of an interval token; unknown tokens pass through.
pub open spec fn td_interval_spec(i: Seq<char>) -> Seq<char> {
    if i == "1m"@ {
        "1min"@
    } else if i == "5m"@ {
        "5min"@
    } else if i == "15m"@ {
        "15min"@
    } else if i == "30m"@ {
        "30min"@
    } else if i == "1h"@ {
        "1h"@
    } else if i == "2h"@ {
        "2h"@
    } else if i == "4h"@ {
        "4h"@
    } else if i == "1d"@ {
        "1day"@
    } else if i == "1w"@ {
        "1week"@
    } else if i == "1M"@ {
        "1month"@
    } else {
        i
    }
}

/// Asset classes whose TwelveData symbol is a currency pair.
pub open spec fn pair_class(c: Seq<char>) -> bool {
    c == "forex"@ || c == "fx"@ || c == "commodity"@ || c == "comm"@ || c == "gold"@
}

/// A pair base of six bytes without `/` is split as `XXX/YYY`.
pub open spec fn splits_pair(class_lower: Seq<char>, b: Seq<char>) -> bool {
    pair_class(class_lower) && !b.contains('/') && encode_utf8(b).len() == 6
}

/// TwelveData symbol and exchange of a base symbol (trimmed) for an asset class
/// (lowercased): Turkish equities go to the `BIST` exchange; currency and
/// commodity pairs of six bytes are split `XXX/YYY`; anything else is the bare
/// base.
pub open spec fn td_symbol_spec(class_lower: Seq<char>, b: Seq<char>) -> (Seq<char>, Option<Seq<char>>) {
    if class_lower == "bist"@ || class_lower == "equity_tr"@ {
        (b, Some("BIST"@))
    } else if splits_pair(class_lower, b) {
        (decode_utf8(encode_utf8(b).subrange(0, 3)) + "/"@ + decode_utf8(encode_utf8(b).subrange(3, 6)), None)
    } else {
        (b, None)
    }
}

/// The split of a six-byte pair falls between characters (it always does for
/// ASCII symbols).
pub open spec fn td_symbol_ok(asset_class: Seq<char>, base: Seq<char>) -> bool {
    splits_pair(lowercase(asset_class), trimmed(base)) ==> is_char_boundary(encode_utf8(trimmed(base)), 3)
}

impl TwelveDataFetcher {
    pub fn new(api_key: String) -> (r: Self)
        ensures
            r.api_key@ == api_key@,
    {
        TwelveDataFetcher { api_key, client: http_client_with_timeout(TD_TIMEOUT_SECS) }
    }

    /// TwelveData interval name of an interval token (`"1d"` is `"1day"`).
    pub fn td_interval(interval: &str) -> (r: &str)
        ensures
            r@ == td_interval_spec(interval@),
    {
        if str_equals(interval, "1m") {
            "1min"
        } else if str_equals(interval, "5m") {
            "5min"
        } else if str_equals(interval, "15m") {
            "15min"
        } else if str_equals(interval, "30m") {
            "30min"
        } else if str_equals(interval, "1h") {
            "1h"
        } else if str_equals(interval, "2h") {
            "2h"
        } else if str_equals(interval, "4h") {
            "4h"
        } else if str_equals(interval, "1d") {
            "1day"
        } else if str_equals(interval, "1w") {
            "1week"
        } else if str_equals(interval, "1M") {
            "1month"
        } else {
            interval
        }
    }

    /// TwelveData symbol and exchange of a base symbol for an asset class
    /// (`td_symbol_spec`).
    pub fn td_symbol(asset_class: &str, base: &str) -> (r: (String, Option<&'static str>))
        requires
            td_symbol_ok(asset_class@, base@),
        ensures
            ({
                let e = td_symbol_spec(lowercase(asset_class@), trimmed(base@));
                &&& r.0@ == e.0
                &&& match r.1 {
                    Some(x) => e.1 == Some(x@),
                    None => e.1 is None,
                }
            }),
    {
        let b = trim_str(base);
        let class = to_lower(asset_class);
        let c = class.as_str();
        if str_equals(c, "bist") || str_equals(c, "equity_tr") {
            proof {
                reveal_strlit("BIST");
            }
            return (String::from_str(b), Some("BIST"));
        }
        let pair = str_equals(c, "forex") || str_equals(c, "fx") || str_equals(c, "commodity") || str_equals(c, "comm")
            || str_equals(c, "gold");
        if pair && !str_contains_char(b, '/') && b.as_bytes().len() == 6 {
            assert(pair_class(lowercase(asset_class@)));
            assert(b.spec_bytes() == encode_utf8(b@));
            assert(splits_pair(lowercase(asset_class@), trimmed(base@)));
            let (head, tail) = b.split_at(3);
            proof {
                vstd::utf8::encode_utf8_decode_utf8(head@);
                vstd::utf8::encode_utf8_decode_utf8(tail@);
            }
            let mut s = String::from_str(head);
            s.append("/");
            s.append(tail);
            return (s, None);
        }
        (String::from_str(b), None)
    }

    /// Epoch milliseconds of a `time_series` row's `datetime`: a daily row reads
    /// `"%Y-%m-%d"` (taken at midnight UTC), an intraday row `"%Y-%m-%d %H:%M:%S"`
    /// (taken as UTC); anything else has no time.
    pub fn series_bar_time(datetime: &str) -> (r: Option<i64>)
        ensures
            r == (match parsed_date_millis(datetime@, "%Y-%m-%d"@) {
                Some(t) => Some(t),
                None => parsed_datetime_millis(datetime@, "%Y-%m-%d %H:%M:%S"@),
            }),
    {
        match parse_date_millis(datetime, "%Y-%m-%d") {
            Some(t) => Some(t),
            None => parse_datetime_millis(datetime, "%Y-%m-%d %H:%M:%S"),
        }
    }

    /// `td_symbol`, or `None` when the split of a six-byte pair would fall inside a
    /// character.
    pub fn td_symbol_checked(asset_class: &str, base: &str) -> (r: Option<(String, Option<&'static str>)>)
        ensures
            td_symbol_ok(asset_class@, base@) ==> r is Some,
            !td_symbol_ok(asset_class@, base@) ==> r is None,
            r matches Some(v) ==> ({
                let e = td_symbol_spec(lowercase(asset_class@), trimmed(base@));
                &&& v.0@ == e.0
                &&& match v.1 {
                    Some(x) => e.1 == Some(x@),
                    None => e.1 is None,
                }
            }),
    {
        let b = trim_str(base);
        let class = to_lower(asset_class);
        let c = class.as_str();
        let pair = str_equals(c, "forex") || str_equals(c, "fx") || str_equals(c, "commodity") || str_equals(c, "comm")
            || str_equals(c, "gold");
        if pair && !str_contains_char(b, '/') && b.as_bytes().len() == 6 && !b.is_char_boundary(3) {
            assert(pair_class(lowercase(asset_class@)));
            assert(b.spec_bytes() == encode_utf8(b@));
            assert(splits_pair(lowercase(asset_class@), trimmed(base@)));
            return None;
        }
        Some(Self::td_symbol(asset_class, base))
    }
}

} // verus!
