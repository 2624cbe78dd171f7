use vstd::prelude::*;
use crate::text::str_equals;
use crate::types::{Candle, CandleView, Signal, candles_view};

verus! {

/// Which directions the backtester may trade.
#[derive(Debug, Clone, Copy, PartialEq, Eq, Structural)]
pub enum DirectionMode {
    /// Only `Signal::Buy` opens a (long) position, as the live system does.
    LongOnly,
    /// `Buy` opens long, `Sell` opens short.
    BothDirections,
    /// `BothDirections`, and the market regime must confirm the direction: long only
    /// outside a downtrend, short only outside an uptrend.
    RegimeDirectional,
}

impl Default for DirectionMode {
    fn default() -> (r: Self)
        ensures
            r == DirectionMode::LongOnly,
    {
        DirectionMode::LongOnly
    }
}

/// Bucket seconds of a higher-timeframe interval, 0 for an unknown one.
pub open spec fn htf_bucket_secs_spec(interval: Seq<char>) -> i64 {
    if interval == "1m"@ {
        60
    } else if interval == "5m"@ {
        300
    } else if interval == "15m"@ {
        900
    } else if interval == "30m"@ {
        1800
    } else if interval == "1h"@ {
        3600
    } else if interval == "4h"@ {
        14_400
    } else if interval == "1d"@ {
        86_400
    } else {
        0
    }
}

/// Bucket seconds of a higher-timeframe interval (for slicing it without look-ahead);
/// 0 for an unknown interval.
pub fn htf_bucket_secs(interval: &str) -> (r: i64)
    ensures
        r == htf_bucket_secs_spec(interval@),
{
    if str_equals(interval, "1m") {
        60
    } else if str_equals(interval, "5m") {
        300
    } else if str_equals(interval, "15m") {
        900
    } else if str_equals(interval, "30m") {
        1800
    } else if str_equals(interval, "1h") {
        3600
    } else if str_equals(interval, "4h") {
        14_400
    } else if str_equals(interval, "1d") {
        86_400
    } else {
        0
    }
}

/// Epoch seconds of a bar.
pub open spec fn bar_secs(c: CandleView) -> int {
    c.timestamp / 1000
}

/// Start (epoch seconds) of the bucket that holds second `t`.
pub open spec fn bucket_start(t: int, bucket_secs: int) -> int {
    t / bucket_secs * bucket_secs
}

/// Higher-timeframe bars in time order.
pub open spec fn htf_sorted(s: Seq<CandleView>) -> bool {
    forall|i: int, j: int| 0 <= i <= j < s.len() ==> s[i].timestamp <= s[j].timestamp
}

/// The higher-timeframe bars a backtest may see at a bar: those of buckets already
/// closed, that is before the bucket holding the bar. `Some(n)` for the first `n`
/// bars when there is at least one; `None` with no bucket size, no bars, or none
/// closed yet.
pub fn htf_completed_prefix(bar_ts_ms: i64, htf_full: &[Candle], bucket_secs: i64) -> (r: Option<usize>)
    requires
        htf_sorted(candles_view(htf_full@)),
    ensures
        (bucket_secs <= 0 || htf_full@.len() == 0) ==> r is None,
        (bucket_secs > 0 && htf_full@.len() > 0) ==> ({
            let start = bucket_start(bar_ts_ms / 1000, bucket_secs as int);
            let s = candles_view(htf_full@);
            match r {
                Some(n) => 0 < n <= s.len() && (forall|i: int| 0 <= i < n ==> bar_secs(#[trigger] s[i]) < start) && (
                forall|i: int| n <= i < s.len() ==> bar_secs(#[trigger] s[i]) >= start),
                None => forall|i: int| 0 <= i < s.len() ==> bar_secs(#[trigger] s[i]) >= start,
            }
        }),
{
    let ghost s = candles_view(htf_full@);
    if bucket_secs <= 0 || htf_full.len() == 0 {
        return None;
    }
    let secs = floor_div(bar_ts_ms as i128, 1000);
    let cur_bucket_start = floor_div(secs, bucket_secs as i128) * bucket_secs as i128;
    assert(cur_bucket_start == bucket_start(bar_ts_ms / 1000, bucket_secs as int)) by {
        assert(secs == bar_ts_ms / 1000);
    }
    let mut lo: usize = 0;
    let mut hi: usize = htf_full.len();
    while lo < hi
        invariant
            s == candles_view(htf_full@),
            htf_sorted(s),
            lo <= hi <= s.len(),
            forall|i: int| 0 <= i < lo ==> bar_secs(#[trigger] s[i]) < cur_bucket_start,
            forall|i: int| hi <= i < s.len() ==> bar_secs(#[trigger] s[i]) >= cur_bucket_start,
        decreases hi - lo,
    {
        let mid = lo + (hi - lo) / 2;
        assert(htf_full@[mid as int]@ == s[mid as int]);
        let mid_secs = floor_div(htf_full[mid].timestamp as i128, 1000);
        if mid_secs < cur_bucket_start {
            proof {
                assert forall|i: int| 0 <= i < mid + 1 implies bar_secs(#[trigger] s[i]) < cur_bucket_start by {
                    assert(s[i].timestamp <= s[mid as int].timestamp);
                    lemma_floor_div_monotone(s[i].timestamp as int, s[mid as int].timestamp as int, 1000);
                }
            }
            lo = mid + 1;
        } else {
            proof {
                assert forall|i: int| mid <= i < s.len() implies bar_secs(#[trigger] s[i]) >= cur_bucket_start by {
                    assert(s[mid as int].timestamp <= s[i].timestamp);
                    lemma_floor_div_monotone(s[mid as int].timestamp as int, s[i].timestamp as int, 1000);
                }
            }
            hi = mid;
        }
    }
    if lo > 0 {
        Some(lo)
    } else {
        None
    }
}

proof fn lemma_floor_div_monotone(a: int, b: int, d: int)
    requires
        a <= b,
        d > 0,
    ensures
        a / d <= b / d,
{
    vstd::arithmetic::div_mod::lemma_div_is_ordered(a, b, d);
}

/// Floor of `a / d` for `d > 0`.
fn floor_div(a: i128, d: i128) -> (r: i128)
    requires
        d > 0,
        -0x8000_0000_0000_0000 <= a <= 0x7fff_ffff_ffff_ffff,
    ensures
        r == a / d,
        -0x8000_0000_0000_0000 <= r <= 0x7fff_ffff_ffff_ffff,
{
    if a >= 0 {
        assert(a / d <= a) by (nonlinear_arith)
            requires
                a >= 0,
                d >= 1,
        ;
        a / d
    } else {
        let m: i128 = -(a + 1);
        let q = m / d;
        assert(-q - 1 == a / d) by (nonlinear_arith)
            requires
                m == -(a + 1),
                q == m / d,
                d > 0,
                a < 0,
        ;
        assert(q <= m) by (nonlinear_arith)
            requires
                m >= 0,
                q == m / d,
                d >= 1,
        ;
        -q - 1
    }
}

/// Direction a signal asks for under a direction mode: `Some(true)` long,
/// `Some(false)` short, `None` no entry (hold, or a sell when only longs trade).
pub open spec fn entry_intent_spec(signal: Signal, direction: DirectionMode) -> Option<bool> {
    match signal {
        Signal::Buy => Some(true),
        Signal::Sell => if direction != DirectionMode::LongOnly { Some(false) } else { None },
        Signal::Hold => None,
    }
}

/// Direction a strategy signal asks for under a direction mode (before the regime
/// and entry-quality checks).
pub fn entry_intent(signal: Signal, direction: DirectionMode) -> (r: Option<bool>)
    ensures
        r == entry_intent_spec(signal, direction),
{
    match signal {
        Signal::Buy => Some(true),
        Signal::Sell => if direction != DirectionMode::LongOnly {
            Some(false)
        } else {
            None
        },
        Signal::Hold => None,
    }
}

/// Entry-intent law: a buy always asks for a long and a hold never asks for an
/// entry; a sell asks for a short in every mode but `LongOnly`, where it asks for
/// nothing. So outside `LongOnly` the two signals ask for opposite directions, and
/// a long intent only ever comes from a buy, a short one only from a sell.
pub proof fn law_entry_intent(signal: Signal, direction: DirectionMode)
    ensures
        entry_intent_spec(Signal::Buy, direction) == Some(true),
        entry_intent_spec(Signal::Hold, direction) is None,
        direction != DirectionMode::LongOnly ==> entry_intent_spec(Signal::Sell, direction) == Some(false),
        direction == DirectionMode::LongOnly ==> entry_intent_spec(Signal::Sell, direction) is None,
        entry_intent_spec(signal, direction) == Some(true) <==> signal == Signal::Buy,
        entry_intent_spec(signal, direction) == Some(false) <==> (signal == Signal::Sell && direction
            != DirectionMode::LongOnly),
{
}

} // verus!
