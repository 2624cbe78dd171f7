use vstd::prelude::*;
use crate::clock::now_epoch_secs;
use crate::robot::portfolio_manager::Hundredths;
use crate::text::{lowercase, parsed_u64};
use crate::types::{Candle, CandleView, candles_view};
use super::normalizer::{DataNormalizer, interval_secs_spec};

verus! {

/// Health figures of one (symbol, interval) series, computed from bars already
/// loaded. The gap share is `gap_missing / gap_expected` (of 1).
#[derive(Debug, Clone, Copy, PartialEq, Eq, Structural)]
pub struct CandleHealth {
    /// Bars loaded.
    pub rows: usize,
    /// Bars missing from the span the series covers (numerator of the gap share).
    pub gap_missing: i64,
    /// Bars the span should hold (denominator of the gap share, always positive).
    pub gap_expected: i64,
    /// Age of the last bar in seconds; `i64::MAX` for an empty series.
    pub stale_secs: i64,
}

/// Operator thresholds of the series health test.
#[derive(Debug, Clone, Copy, PartialEq, Eq, Structural)]
pub struct HealthThresholds {
    /// Fewest bars (fewer is unhealthy).
    pub min_rows: usize,
    /// Largest gap share allowed, in hundredths of a percent (0..10000).
    pub max_gap_pct: Hundredths,
    /// Largest age of the last bar, in bars of the interval.
    pub max_stale_bars: u64,
}

/// `x` reinterpreted as `i64` (two's complement), as `as i64` does.
pub open spec fn wrap_i64(x: u64) -> int {
    if x <= i64::MAX { x as int } else { x - 0x1_0000_0000_0000_0000 }
}

/// `a / b` rounded toward zero, for `b != 0`.
pub open spec fn quot_toward_zero(a: int, b: int) -> int {
    let q = (if a >= 0 { a } else { -a }) / (if b >= 0 { b } else { -b });
    if (a >= 0) == (b > 0) || q == 0 { q } else { -q }
}

/// Epoch seconds of a bar (its millisecond timestamp floored to seconds).
pub open spec fn bar_secs(c: CandleView) -> int {
    c.timestamp / 1000
}

/// Seconds per bar used by the health check: the interval's seconds, at least 1, read as
/// `i64`.
pub open spec fn gate_secs(lower: Seq<char>, parsed: Option<u64>) -> int {
    let s = interval_secs_spec(lower, parsed);
    wrap_i64(if s >= 1 { s } else { 1 })
}

/// Health of a series at `now` (epoch seconds): the number of bars; the gap share
/// `max(0, expected - rows) / expected` where `expected` is the span from the first
/// to the last bar in bars plus one (0 when that is not positive, 1 for no bars);
/// the age of the last bar, at least 0 and at most `i64::MAX` (`i64::MAX` for no
/// bars).
pub open spec fn health_spec(s: Seq<CandleView>, sec: int, now: i64) -> CandleHealth {
    if s.len() == 0 {
        CandleHealth { rows: 0, gap_missing: 1, gap_expected: 1, stale_secs: i64::MAX }
    } else {
        let first = bar_secs(s[0]);
        let last = bar_secs(s.last());
        let span = if last - first > 0 { last - first } else { 0 };
        let expected = quot_toward_zero(span, sec) + 1;
        let missing = if expected > s.len() { expected - s.len() } else { 0 };
        CandleHealth {
            rows: s.len() as usize,
            gap_missing: if expected > 0 { missing as i64 } else { 0 },
            gap_expected: if expected > 0 { expected as i64 } else { 1 },
            stale_secs: (if now - last > i64::MAX { i64::MAX as int } else if now - last > 0 { now - last } else { 0 }) as i64,
        }
    }
}

/// Largest age of the last bar that the health check accepts: the bar count read as `i64`
/// times the seconds per bar, saturating at the `i64` bounds.
pub open spec fn max_stale_secs(bars: u64, sec: int) -> int {
    let p = wrap_i64(bars) * sec;
    if p > i64::MAX { i64::MAX as int } else if p < i64::MIN { i64::MIN as int } else { p }
}

/// Healthy means: enough rows, a gap share within the limit, a fresh enough
/// last bar.
pub open spec fn healthy_spec(h: CandleHealth, th: HealthThresholds, sec: int) -> bool {
    &&& h.rows >= th.min_rows
    &&& h.gap_missing * 10000 <= th.max_gap_pct.0 * h.gap_expected
    &&& h.stale_secs <= max_stale_secs(th.max_stale_bars, sec)
}

/// Floor of `ms / 1000`.
fn floor_secs(ms: i64) -> (r: i64)
    ensures
        r == ms / 1000,
{
    if ms >= 0 {
        ms / 1000
    } else {
        let m: i64 = -(ms + 1);
        -(m / 1000) - 1
    }
}

/// Seconds per bar used by the health check.
fn gate_seconds(interval: &str) -> (r: i64)
    ensures
        r == gate_secs(lowercase(interval@), parsed_u64(interval@)),
        r != 0,
{
    let s = DataNormalizer::parse_interval(interval);
    let s1: u64 = if s >= 1 {
        s
    } else {
        1
    };
    if s1 <= i64::MAX as u64 {
        s1 as i64
    } else {
        (s1 as i128 - 0x1_0000_0000_0000_0000i128) as i64
    }
}

impl CandleHealth {
    /// Health of a time-ordered series at `now` (epoch seconds), see `health_spec`.
    pub fn from_candles_at(candles: &[Candle], interval: &str, now: i64) -> (r: Self)
        ensures
            r == health_spec(candles_view(candles@), gate_secs(lowercase(interval@), parsed_u64(interval@)), now),
            r.gap_expected > 0,
            0 <= r.gap_missing <= r.gap_expected,
    {
        let ghost s = candles_view(candles@);
        let rows = candles.len();
        if rows == 0 {
            return CandleHealth { rows: 0, gap_missing: 1, gap_expected: 1, stale_secs: i64::MAX };
        }
        let sec = gate_seconds(interval);
        assert(candles@[0]@ == s[0]);
        assert(candles@[rows - 1]@ == s.last());
        let first = floor_secs(candles[0].timestamp);
        let last = floor_secs(candles[rows - 1].timestamp);
        let span: i128 = if last as i128 - first as i128 > 0 {
            last as i128 - first as i128
        } else {
            0
        };
        let a: i128 = span;
        let b: i128 = if sec >= 0 {
            sec as i128
        } else {
            -(sec as i128)
        };
        let q: i128 = a / b;
        let quot: i128 = if sec > 0 || q == 0 {
            q
        } else {
            -q
        };
        let expected: i128 = quot + 1;
        let missing: i128 = if expected > rows as i128 {
            expected - rows as i128
        } else {
            0
        };
        let stale: i128 = if now as i128 - last as i128 > i64::MAX as i128 {
            i64::MAX as i128
        } else if now as i128 - last as i128 > 0 {
            now as i128 - last as i128
        } else {
            0
        };
        assert(a / b <= a) by (nonlinear_arith)
            requires
                a >= 0,
                b >= 1,
        ;
        CandleHealth {
            rows,
            gap_missing: if expected > 0 {
                missing as i64
            } else {
                0
            },
            gap_expected: if expected > 0 {
                expected as i64
            } else {
                1
            },
            stale_secs: stale as i64,
        }
    }

    /// Health of a time-ordered series now.
    pub fn from_candles(candles: &[Candle], interval: &str) -> (r: Self)
        ensures
            r.rows == candles@.len(),
            candles@.len() == 0 ==> r.stale_secs == i64::MAX && r.gap_missing == r.gap_expected,
            r.gap_expected > 0,
            0 <= r.gap_missing <= r.gap_expected,
    {
        let now = now_epoch_secs();
        let n = candles.len();
        assert(candles_view(candles@).len() == n);
        Self::from_candles_at(candles, interval, now as i64)
    }

    /// Gap share in hundredths of a percent, rounded down (10000 is all missing).
    pub fn gap_pct_hundredths(&self) -> (r: u64)
        requires
            self.gap_expected > 0,
            0 <= self.gap_missing <= self.gap_expected,
        ensures
            r == self.gap_missing * 10000 / (self.gap_expected as int),
    {
        let v: i128 = self.gap_missing as i128 * 10000 / self.gap_expected as i128;
        assert(self.gap_missing * 10000 / (self.gap_expected as int) <= 10000) by (nonlinear_arith)
            requires
                self.gap_expected > 0,
                0 <= self.gap_missing <= self.gap_expected,
        ;
        assert(self.gap_missing * 10000 / (self.gap_expected as int) >= 0) by (nonlinear_arith)
            requires
                self.gap_expected > 0,
                0 <= self.gap_missing,
        ;
        v as u64
    }

    /// Whether the series is healthy: at least `min_rows` bars, a gap share of at most
    /// `max_gap_pct`, and a last bar at most `max_stale_bars` intervals old.
    pub fn is_healthy(&self, th: &HealthThresholds, interval: &str) -> (r: bool)
        requires
            self.gap_expected > 0,
            0 <= self.gap_missing <= self.gap_expected,
        ensures
            r == healthy_spec(*self, *th, gate_secs(lowercase(interval@), parsed_u64(interval@))),
    {
        let sec = gate_seconds(interval);
        let bars: i128 = if th.max_stale_bars <= i64::MAX as u64 {
            th.max_stale_bars as i128
        } else {
            th.max_stale_bars as i128 - 0x1_0000_0000_0000_0000i128
        };
        assert(-0x4000_0000_0000_0000_0000_0000_0000_0000 <= bars * sec <= 0x4000_0000_0000_0000_0000_0000_0000_0000) by (nonlinear_arith)
            requires
                -0x8000_0000_0000_0000 <= bars < 0x8000_0000_0000_0000,
                -0x8000_0000_0000_0000 <= sec < 0x8000_0000_0000_0000,
        ;
        let p: i128 = bars * sec as i128;
        let max_stale: i128 = if p > i64::MAX as i128 {
            i64::MAX as i128
        } else if p < i64::MIN as i128 {
            i64::MIN as i128
        } else {
            p
        };
        let gm: i128 = self.gap_missing as i128;
        let ge: i128 = self.gap_expected as i128;
        let mg: i128 = th.max_gap_pct.0 as i128;
        assert(0 <= mg * ge <= 0x1_0000_0000 * 0x8000_0000_0000_0000) by (nonlinear_arith)
            requires
                0 <= mg < 0x1_0000_0000,
                0 < ge < 0x8000_0000_0000_0000,
        ;
        self.rows >= th.min_rows && gm * 10000 <= mg * ge && (self.stale_secs as i128) <= max_stale
    }
}

} // verus!
