use vstd::prelude::*;
use vstd::string::{StrSliceExecFns, StringExecFns};
use crate::clock::now_epoch_millis;
use crate::text::{decimal_u64, str_contains_char, str_equals, u64_to_text};
use vstd::utf8::encode_utf8;
use hmac::{Hmac, Mac};
use sha2::Sha256;

verus! {

/// `reqwest::Client`, carried through as an opaque HTTP client.
#[verifier::external_type_specification]
#[verifier::external_body]
pub struct ExReqwestClient(reqwest::Client);

/// What the `hmac` crate computes as the HMAC-SHA256 tag of `msg` under `key`.
pub uninterp spec fn hmac_sha256_tag(key: Seq<u8>, msg: Seq<u8>) -> Seq<u8>;

/// `Hmac::<Sha256>::new_from_slice(key)` (which accepts any key length), `update(msg)`,
/// `finalize().into_bytes()`: the tag is named `hmac_sha256_tag` and, SHA-256
/// being the hash, is 32 bytes long.
#[verifier::external_body]
fn hmac_sha256(key: &[u8], msg: &[u8]) -> (r: Vec<u8>)
    ensures
        r@ == hmac_sha256_tag(key@, msg@),
        r@.len() == 32,
{
    let mut mac = Hmac::<Sha256>::new_from_slice(key).expect("HMAC can take key of any size");
    mac.update(msg);
    mac.finalize().into_bytes().to_vec()
}

/// `reqwest::Client::builder().build()`: a client with default settings (what
/// `Client::new` builds), `None` when building fails (no TLS backend, resolver
/// configuration unreadable), where `Client::new` would panic. Nothing is stated of
/// the client.
#[verifier::external_body]
fn new_http_client() -> Option<reqwest::Client> {
    reqwest::Client::builder().build().ok()
}

/// Lexicographic order of strings by Unicode code point, the order of `str`'s
/// `Ord`: `a` comes no later than `b`.
pub open spec fn chars_le(a: Seq<char>, b: Seq<char>) -> bool
    decreases a.len(),
{
    if a.len() == 0 {
        true
    } else if b.len() == 0 {
        false
    } else if a[0] != b[0] {
        (a[0] as int) < (b[0] as int)
    } else {
        chars_le(a.drop_first(), b.drop_first())
    }
}

/// What `Vec<String>::sort` leaves: the strings in std's string order.
pub uninterp spec fn sorted_strings(v: Seq<Seq<char>>) -> Seq<Seq<char>>;

/// `<[String]>::sort`: the result is named `sorted_strings`; it holds the same
/// strings, each as often as before, in `chars_le` order.
#[verifier::external_body]
fn sort_strings(v: &mut Vec<String>)
    ensures
        final(v)@.map_values(|s: String| s@) == sorted_strings(old(v)@.map_values(|s: String| s@)),
        final(v)@.len() == old(v)@.len(),
        final(v)@.map_values(|s: String| s@).to_multiset() == old(v)@.map_values(|s: String| s@).to_multiset(),
        forall|i: int, j: int|
            0 <= i < j < final(v)@.len() ==> chars_le(#[trigger] final(v)@[i]@, #[trigger] final(v)@[j]@),
{
    v.sort();
}

/// Lowercase hexadecimal digit of `d` (0..16).
pub open spec fn hex_digit(d: int) -> char {
    if d == 0 {
        '0'
    } else if d == 1 {
        '1'
    } else if d == 2 {
        '2'
    } else if d == 3 {
        '3'
    } else if d == 4 {
        '4'
    } else if d == 5 {
        '5'
    } else if d == 6 {
        '6'
    } else if d == 7 {
        '7'
    } else if d == 8 {
        '8'
    } else if d == 9 {
        '9'
    } else if d == 10 {
        'a'
    } else if d == 11 {
        'b'
    } else if d == 12 {
        'c'
    } else if d == 13 {
        'd'
    } else if d == 14 {
        'e'
    } else {
        'f'
    }
}

/// Lowercase hexadecimal writing of bytes, two digits per byte.
pub open spec fn hex_lower(b: Seq<u8>) -> Seq<char>
    decreases b.len(),
{
    if b.len() == 0 {
        Seq::empty()
    } else {
        hex_lower(b.drop_last()) + seq![hex_digit(b.last() as int / 16), hex_digit(b.last() as int % 16)]
    }
}

/// `parts` joined with `sep` between them.
pub open spec fn joined(parts: Seq<Seq<char>>, sep: Seq<char>) -> Seq<char>
    decreases parts.len(),
{
    if parts.len() == 0 {
        Seq::empty()
    } else if parts.len() == 1 {
        parts[0]
    } else {
        joined(parts.drop_last(), sep) + sep + parts.last()
    }
}

fn hex_digit_str(d: u8) -> (r: &'static str)
    requires
        d < 16,
    ensures
        r@ == seq![hex_digit(d as int)],
{
    proof {
        reveal_strlit("0");
        reveal_strlit("1");
        reveal_strlit("2");
        reveal_strlit("3");
        reveal_strlit("4");
        reveal_strlit("5");
        reveal_strlit("6");
        reveal_strlit("7");
        reveal_strlit("8");
        reveal_strlit("9");
        reveal_strlit("a");
        reveal_strlit("b");
        reveal_strlit("c");
        reveal_strlit("d");
        reveal_strlit("e");
        reveal_strlit("f");
    }
    let r = match d {
        0 => "0",
        1 => "1",
        2 => "2",
        3 => "3",
        4 => "4",
        5 => "5",
        6 => "6",
        7 => "7",
        8 => "8",
        9 => "9",
        10 => "a",
        11 => "b",
        12 => "c",
        13 => "d",
        14 => "e",
        _ => "f",
    };
    assert(r@ =~= seq![hex_digit(d as int)]);
    r
}

/// Lowercase hexadecimal writing of bytes.
pub fn to_hex_lower(bytes: &[u8]) -> (r: String)
    ensures
        r@ == hex_lower(bytes@),
{
    let mut out = String::from_str("");
    proof {
        reveal_strlit("");
    }
    let mut i: usize = 0;
    while i < bytes.len()
        invariant
            0 <= i <= bytes@.len(),
            out@ == hex_lower(bytes@.take(i as int)),
        decreases bytes.len() - i,
    {
        let b = bytes[i];
        out.append(hex_digit_str(b / 16));
        out.append(hex_digit_str(b % 16));
        proof {
            assert(bytes@.take(i as int + 1).drop_last() =~= bytes@.take(i as int));
            assert(bytes@.take(i as int + 1).last() == b);
        }
        i += 1;
        assert(out@ =~= hex_lower(bytes@.take(i as int)));
    }
    assert(bytes@.take(bytes@.len() as int) =~= bytes@);
    out
}

proof fn lemma_hex_len(b: Seq<u8>)
    ensures
        hex_lower(b).len() == 2 * b.len(),
    decreases b.len(),
{
    if b.len() > 0 {
        lemma_hex_len(b.drop_last());
    }
}

/// Base URL of a market: spot uses the spot API; futures use the testnet when
/// trading on paper and the live API otherwise.
pub open spec fn base_url_spec(is_spot: bool, is_paper: bool) -> Seq<char> {
    if is_spot {
        "https://api.binance.com"@
    } else if is_paper {
        "https://testnet.binancefuture.com"@
    } else {
        "https://fapi.binance.com"@
    }
}

/// Order endpoint of a market.
pub open spec fn order_path_spec(is_spot: bool) -> Seq<char> {
    if is_spot { "/api/v3/order"@ } else { "/fapi/v1/order"@ }
}

/// `s` without the trailing zeros of its fraction: while it holds a `.` and ends
/// with `0`, the last character goes.
pub open spec fn strip_fraction_zeros(s: Seq<char>) -> Seq<char>
    decreases s.len(),
{
    if s.len() > 0 && s.contains('.') && s.last() == '0' {
        strip_fraction_zeros(s.drop_last())
    } else {
        s
    }
}

/// A decimal text in its shortest form: trailing fraction zeros removed, then a
/// trailing `.` (`"1.50000000"` is `"1.5"`, `"2.00000000"` is `"2"`).
pub open spec fn trim_decimal_spec(s: Seq<char>) -> Seq<char> {
    let t = strip_fraction_zeros(s);
    if t.len() > 0 && t.last() == '.' { t.drop_last() } else { t }
}

/// Removing a trailing `0` keeps whether the text holds a `.`.
proof fn lemma_strip_prefix(s: Seq<char>, end: int)
    requires
        0 <= end <= s.len(),
        forall|k: int| end <= k < s.len() ==> #[trigger] s[k] == '0',
        s.contains('.') == s.take(end).contains('.'),
        s.contains('.'),
    ensures
        strip_fraction_zeros(s) == strip_fraction_zeros(s.take(end)),
    decreases s.len() - end,
{
    if end < s.len() {
        let t = s.take(end + 1);
        assert(t.drop_last() =~= s.take(end));
        assert(t.last() == '0');
        assert(t.contains('.')) by {
            let w = choose|w: int| 0 <= w < s.take(end).len() && s.take(end)[w] == '.';
            assert(t[w] == '.');
        }
        assert forall|k: int| end + 1 <= k < s.len() implies #[trigger] s[k] == '0' by {}
        assert(s.contains('.') == s.take(end + 1).contains('.'));
        lemma_strip_prefix(s, end + 1);
    } else {
        assert(s.take(end) =~= s);
    }
}

/// A decimal text in its shortest form (see `trim_decimal_spec`), as quantities and
/// prices are sent to the exchange.
pub fn trim_decimal_zeros(s: &str) -> (r: String)
    ensures
        r@ == trim_decimal_spec(s@),
{
    let n = s.unicode_len();
    let has_dot = str_contains_char(s, '.');
    let mut end = n;
    assert(s@.take(n as int) =~= s@);
    if has_dot {
        while end > 0 && s.get_char(end - 1) == '0'
            invariant
                n == s@.len(),
                has_dot == s@.contains('.'),
                has_dot,
                0 <= end <= n,
                forall|k: int| end <= k < n ==> #[trigger] s@[k] == '0',
                s@.take(end as int).contains('.'),
            decreases end,
        {
            proof {
                let w = choose|w: int| 0 <= w < s@.take(end as int).len() && s@.take(end as int)[w] == '.';
                assert(s@[w] == '.');
                assert(w != end - 1);
                assert(s@.take(end as int - 1)[w] == '.');
            }
            end = end - 1;
        }
        proof {
            assert(s@.contains('.') == s@.take(end as int).contains('.'));
            lemma_strip_prefix(s@, end as int);
            let t = s@.take(end as int);
            if t.len() > 0 {
                assert(t.last() == s@[end - 1]);
            }
        }
    } else {
        assert(s@.take(n as int) =~= s@);
    }
    let ghost t = s@.take(end as int);
    assert(strip_fraction_zeros(s@) == t);
    if end > 0 && s.get_char(end - 1) == '.' {
        end = end - 1;
        assert(t.drop_last() =~= s@.subrange(0, end as int));
    } else {
        assert(t =~= s@.subrange(0, end as int));
    }
    String::from_str(s.substring_char(0, end))
}

/// The parameters of a maker-only limit order: spot uses `LIMIT_MAKER`, futures a
/// `LIMIT` order with `timeInForce=GTX` (the exchange expires it rather than let it
/// take liquidity).
pub open spec fn post_only_params_spec(
    is_spot: bool,
    symbol: Seq<char>,
    side: Seq<char>,
    quantity: Seq<char>,
    price: Seq<char>,
    timestamp: Seq<char>,
) -> Seq<Seq<char>> {
    if is_spot {
        seq![
            "symbol="@ + symbol,
            "side="@ + side,
            "type=LIMIT_MAKER"@,
            "quantity="@ + quantity,
            "price="@ + price,
            "timestamp="@ + timestamp,
            "recvWindow=5000"@,
        ]
    } else {
        seq![
            "symbol="@ + symbol,
            "side="@ + side,
            "type=LIMIT"@,
            "timeInForce=GTX"@,
            "quantity="@ + quantity,
            "price="@ + price,
            "timestamp="@ + timestamp,
            "recvWindow=5000"@,
        ]
    }
}

/// `prefix` followed by `value`.
fn param(prefix: &str, value: &str) -> (r: String)
    ensures
        r@ == prefix@ + value@,
{
    let mut p = String::from_str(prefix);
    p.append(value);
    p
}

/// Binance REST client for spot and futures, on paper or live.
pub struct BinanceFuturesExecutor {
    pub api_key: String,
    pub api_secret: String,
    /// The HTTP client; `None` when it could not be built.
    pub client: Option<reqwest::Client>,
    /// Paper (testnet) trading rather than live.
    pub is_paper: bool,
    /// Spot (`api.binance.com`) rather than futures (`fapi.binance.com`).
    pub is_spot: bool,
    pub base_url: String,
}

impl BinanceFuturesExecutor {
    /// A futures executor.
    pub fn new(api_key: String, api_secret: String, is_paper: bool) -> (r: Self)
        ensures
            r.api_key@ == api_key@,
            r.api_secret@ == api_secret@,
            r.is_paper == is_paper,
            !r.is_spot,
            r.base_url@ == base_url_spec(false, is_paper),
    {
        proof {
            reveal_strlit("futures");
            reveal_strlit("spot");
            assert("futures"@ != "spot"@) by {
                assert("futures"@[0] != "spot"@[0]);
            }
        }
        Self::new_for_market(api_key, api_secret, is_paper, "futures")
    }

    /// An executor for a market: `"spot"`, or anything else for futures.
    pub fn new_for_market(api_key: String, api_secret: String, is_paper: bool, market: &str) -> (r: Self)
        ensures
            r.api_key@ == api_key@,
            r.api_secret@ == api_secret@,
            r.is_paper == is_paper,
            r.is_spot == (market@ == "spot"@),
            r.base_url@ == base_url_spec(market@ == "spot"@, is_paper),
    {
        let is_spot = str_equals(market, "spot");
        let base_url = if is_spot {
            String::from_str("https://api.binance.com")
        } else if is_paper {
            String::from_str("https://testnet.binancefuture.com")
        } else {
            String::from_str("https://fapi.binance.com")
        };
        BinanceFuturesExecutor { api_key, api_secret, client: new_http_client(), is_paper, is_spot, base_url }
    }

    /// HMAC-SHA256 signature of a query string under the API secret, in lowercase
    /// hexadecimal (64 characters).
    pub fn sign_request(&self, query_string: &str) -> (r: String)
        ensures
            r@ == hex_lower(hmac_sha256_tag(encode_utf8(self.api_secret@), encode_utf8(query_string@))),
            r@.len() == 64,
    {
        let tag = hmac_sha256(self.api_secret.as_str().as_bytes(), query_string.as_bytes());
        let r = to_hex_lower(tag.as_slice());
        proof {
            lemma_hex_len(tag@);
        }
        r
    }

    /// Request timestamp: epoch milliseconds, 0 for a clock before the epoch and
    /// at most `i64::MAX`.
    pub fn nonce(&self) -> (r: u64)
        ensures
            r <= i64::MAX,
    {
        let ms = now_epoch_millis();
        ms as u64
    }

    /// Order endpoint of the executor's market.
    pub fn order_path(&self) -> (r: &'static str)
        ensures
            r@ == order_path_spec(self.is_spot),
    {
        if self.is_spot {
            "/api/v3/order"
        } else {
            "/fapi/v1/order"
        }
    }

    /// Endpoint that cancels every open order of a symbol.
    pub fn cancel_all_path(&self) -> (r: &'static str)
        ensures
            r@ == (if self.is_spot { "/api/v3/openOrders"@ } else { "/fapi/v1/allOpenOrders"@ }),
    {
        if self.is_spot {
            "/api/v3/openOrders"
        } else {
            "/fapi/v1/allOpenOrders"
        }
    }

    /// Endpoint of the account (balances).
    pub fn account_path(&self) -> (r: &'static str)
        ensures
            r@ == (if self.is_spot { "/api/v3/account"@ } else { "/fapi/v2/account"@ }),
    {
        if self.is_spot {
            "/api/v3/account"
        } else {
            "/fapi/v2/account"
        }
    }

    /// Public best bid/ask endpoint of the executor's market.
    pub fn book_ticker_path(&self) -> (r: &'static str)
        ensures
            r@ == (if self.is_spot { "/api/v3/ticker/bookTicker"@ } else { "/fapi/v1/ticker/bookTicker"@ }),
    {
        if self.is_spot {
            "/api/v3/ticker/bookTicker"
        } else {
            "/fapi/v1/ticker/bookTicker"
        }
    }

    /// Endpoint of the open positions; spot has no positions, so none.
    pub fn positions_path(&self) -> (r: Option<&'static str>)
        ensures
            self.is_spot ==> r is None,
            !self.is_spot ==> (r matches Some(p) && p@ == "/fapi/v2/positionRisk"@),
    {
        if self.is_spot {
            None
        } else {
            Some("/fapi/v2/positionRisk")
        }
    }

    /// Parameters of a maker-only limit order (see `post_only_params_spec`); the
    /// quantity and price are decimal texts, written in their shortest form.
    pub fn post_only_order_params(&self, symbol: &str, side: &str, quantity: &str, price: &str, timestamp: u64) -> (r: Vec<String>)
        ensures
            r@.map_values(|p: String| p@) == post_only_params_spec(
                self.is_spot,
                symbol@,
                side@,
                trim_decimal_spec(quantity@),
                trim_decimal_spec(price@),
                decimal_u64(timestamp),
            ),
    {
        let qty = trim_decimal_zeros(quantity);
        let px = trim_decimal_zeros(price);
        let ts = u64_to_text(timestamp);
        let mut v: Vec<String> = Vec::new();
        v.push(param("symbol=", symbol));
        v.push(param("side=", side));
        if self.is_spot {
            v.push(String::from_str("type=LIMIT_MAKER"));
        } else {
            v.push(String::from_str("type=LIMIT"));
            v.push(String::from_str("timeInForce=GTX"));
        }
        v.push(param("quantity=", qty.as_str()));
        v.push(param("price=", px.as_str()));
        v.push(param("timestamp=", ts.as_str()));
        v.push(String::from_str("recvWindow=5000"));
        assert(v@.map_values(|p: String| p@) =~= post_only_params_spec(
            self.is_spot,
            symbol@,
            side@,
            trim_decimal_spec(quantity@),
            trim_decimal_spec(price@),
            decimal_u64(timestamp),
        ));
        v
    }

    /// Signed request URL for `path`: the parameters sorted and joined with `&`,
    /// then `<base><path>?<query>&signature=<signature of the query>`.
    pub fn signed_url(&self, path: &str, params: Vec<String>) -> (r: String)
        ensures
            ({
                let query = joined(sorted_strings(params@.map_values(|s: String| s@)), "&"@);
                r@ == self.base_url@ + path@ + "?"@ + query + "&signature="@ + hex_lower(
                    hmac_sha256_tag(encode_utf8(self.api_secret@), encode_utf8(query)),
                )
            }),
    {
        let mut params = params;
        sort_strings(&mut params);
        let ghost parts = params@.map_values(|s: String| s@);
        let mut query = String::from_str("");
        proof {
            reveal_strlit("");
        }
        let mut i: usize = 0;
        while i < params.len()
            invariant
                parts == params@.map_values(|s: String| s@),
                0 <= i <= params@.len(),
                query@ == joined(parts.take(i as int), "&"@),
            decreases params.len() - i,
        {
            proof {
                assert(parts.take(i as int + 1).drop_last() =~= parts.take(i as int));
                assert(parts.take(i as int + 1).last() == params@[i as int]@);
            }
            if i > 0 {
                query.append("&");
            }
            query.append(params[i].as_str());
            proof {
                if i == 0 {
                    assert(parts.take(1).len() == 1);
                    assert(parts.take(1)[0] == params@[0]@);
                    assert(query@ =~= joined(parts.take(1), "&"@));
                }
            }
            i += 1;
        }
        assert(parts.take(params@.len() as int) =~= parts);
        let signature = self.sign_request(query.as_str());
        let mut url = String::from_str(self.base_url.as_str());
        url.append(path);
        url.append("?");
        url.append(query.as_str());
        url.append("&signature=");
        url.append(signature.as_str());
        url
    }
}

} // verus!
