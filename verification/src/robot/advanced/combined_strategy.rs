use vstd::prelude::*;
use crate::types::{Candle, CandleView, Signal, candles_view};

verus! {

/// Moving-average crossover strategy.
pub struct CombinedStrategy;

/// Sum of the closes of bars `lo..hi`.
pub open spec fn close_sum(s: Seq<CandleView>, lo: int, hi: int) -> int
    decreases hi - lo,
{
    if hi <= lo {
        0
    } else {
        close_sum(s, lo, hi - 1) + s[hi - 1].close
    }
}

/// Numerator of the simple moving average of period `p` at bar `i`: the sum of the
/// last `p` closes, or 0 before a full window.
pub open spec fn sma_num(s: Seq<CandleView>, i: int, p: int) -> int {
    if i + 1 < p { 0 } else { close_sum(s, i + 1 - p, i + 1) }
}

/// Denominator of that average: `p`, or 1 before a full window.
pub open spec fn sma_den(i: int, p: int) -> int {
    if i + 1 < p { 1 } else { p }
}

/// The average of period `p` at bar `i` is below the average of period `q` at bar `j`.
pub open spec fn sma_lt(s: Seq<CandleView>, i: int, p: int, j: int, q: int) -> bool {
    sma_num(s, i, p) * sma_den(j, q) < sma_num(s, j, q) * sma_den(i, p)
}

/// Crossover signal of the last two bars: a fast average moving from at or below
/// the slow one to above it buys, from at or above to below sells. Fewer bars than
/// the slow period, or a zero period (an undefined average), hold.
pub open spec fn ma_crossover_spec(s: Seq<CandleView>, fast: int, slow: int) -> Signal {
    let n = s.len() as int;
    if n < slow || fast == 0 || slow == 0 {
        Signal::Hold
    } else {
        let fast_prev_le = !sma_lt(s, n - 2, slow, n - 2, fast);
        let fast_curr_gt = sma_lt(s, n - 1, slow, n - 1, fast);
        let fast_prev_ge = !sma_lt(s, n - 2, fast, n - 2, slow);
        let fast_curr_lt = sma_lt(s, n - 1, fast, n - 1, slow);
        if fast_prev_le && fast_curr_gt {
            Signal::Buy
        } else if fast_prev_ge && fast_curr_lt {
            Signal::Sell
        } else {
            Signal::Hold
        }
    }
}

proof fn lemma_close_sum_bound(s: Seq<CandleView>, lo: int, hi: int)
    requires
        0 <= lo <= hi <= s.len(),
    ensures
        -(hi - lo) * 0x8000_0000_0000_0000 <= close_sum(s, lo, hi) <= (hi - lo) * 0x8000_0000_0000_0000,
    decreases hi - lo,
{
    if hi > lo {
        lemma_close_sum_bound(s, lo, hi - 1);
    }
}

/// Floor of `a / p` and the remainder, for `p > 0`.
fn floor_div_rem(a: i128, p: i128) -> (r: (i128, i128))
    requires
        1 <= p <= 0x8000_0000_0000_0000,
        -0x4000_0000_0000_0000_0000_0000_0000_0000 <= a <= 0x4000_0000_0000_0000_0000_0000_0000_0000,
    ensures
        r.0 * p + r.1 == a,
        0 <= r.1 < p,
        -0x4000_0000_0000_0000_0000_0000_0000_0000 <= r.0 <= 0x4000_0000_0000_0000_0000_0000_0000_0000,
{
    if a >= 0 {
        let q = a / p;
        let m = a % p;
        assert(q * p + m == a) by (nonlinear_arith)
            requires
                q == a / p,
                m == a % p,
                p > 0,
        ;
        assert(q <= a) by (nonlinear_arith)
            requires
                q == a / p,
                a >= 0,
                p >= 1,
        ;
        (q, m)
    } else {
        let m: i128 = -a;
        let c = (m + p - 1) / p;
        let fl: i128 = -c;
        assert(c * p >= m && c * p < m + p && c * p >= 0) by (nonlinear_arith)
            requires
                c == (m + p - 1) / (p as int),
                m > 0,
                p > 0,
        ;
        assert(c <= m) by (nonlinear_arith)
            requires
                c == (m + p - 1) / (p as int),
                m > 0,
                p >= 1,
        ;
        let cp = c * p;
        assert(fl * p == -cp) by (nonlinear_arith)
            requires
                fl == -c,
                cp == c * p,
        ;
        let rem = cp - m;
        (fl, rem)
    }
}

/// `a / p < b / q` decided exactly, for positive denominators.
fn frac_lt(a: i128, p: i128, b: i128, q: i128) -> (r: bool)
    requires
        1 <= p <= 0x8000_0000_0000_0000,
        1 <= q <= 0x8000_0000_0000_0000,
        -0x4000_0000_0000_0000_0000_0000_0000_0000 <= a <= 0x4000_0000_0000_0000_0000_0000_0000_0000,
        -0x4000_0000_0000_0000_0000_0000_0000_0000 <= b <= 0x4000_0000_0000_0000_0000_0000_0000_0000,
    ensures
        r == (a * q < b * p),
{
    let (fa, ra) = floor_div_rem(a, p);
    let (fb, rb) = floor_div_rem(b, q);
    assert(a * q - b * p == (fa - fb) * p * q + (ra * q - rb * p)) by (nonlinear_arith)
        requires
            fa * p + ra == a,
            fb * q + rb == b,
    ;
    assert(0 <= ra * q < p * q) by (nonlinear_arith)
        requires
            0 <= ra < p,
            q >= 1,
    ;
    assert(0 <= rb * p < p * q) by (nonlinear_arith)
        requires
            0 <= rb < q,
            p >= 1,
    ;
    if fa < fb {
        assert((fa - fb) * p * q <= -(p * q)) by (nonlinear_arith)
            requires
                fa - fb <= -1,
                p >= 1,
                q >= 1,
        ;
        true
    } else if fa > fb {
        assert((fa - fb) * p * q >= p * q) by (nonlinear_arith)
            requires
                fa - fb >= 1,
                p >= 1,
                q >= 1,
        ;
        false
    } else {
        assert(ra * q <= 0x8000_0000_0000_0000 * 0x8000_0000_0000_0000) by (nonlinear_arith)
            requires
                0 <= ra < p,
                p <= 0x8000_0000_0000_0000,
                1 <= q <= 0x8000_0000_0000_0000,
        ;
        assert(rb * p <= 0x8000_0000_0000_0000 * 0x8000_0000_0000_0000) by (nonlinear_arith)
            requires
                0 <= rb < q,
                q <= 0x8000_0000_0000_0000,
                1 <= p <= 0x8000_0000_0000_0000,
        ;
        assert((fa - fb) * p * q == 0) by (nonlinear_arith)
            requires
                fa == fb,
        ;
        ra * q < rb * p
    }
}

/// Two signals made one: agreement, or one signal while the other holds, gives
/// that signal; a buy against a sell holds.
pub open spec fn combine_signals_spec(ma: Signal, rsi: Signal) -> Signal {
    if ma == rsi {
        ma
    } else if rsi == Signal::Hold {
        ma
    } else if ma == Signal::Hold {
        rsi
    } else {
        Signal::Hold
    }
}

impl CombinedStrategy {
    /// The decision table of the combined strategy over its crossover signal `ma`
    /// and its RSI signal `rsi` (`combine_signals_spec`).
    pub fn combine_signals(ma: Signal, rsi: Signal) -> (r: Signal)
        ensures
            r == combine_signals_spec(ma, rsi),
    {
        match (ma, rsi) {
            (Signal::Buy, Signal::Buy) => Signal::Buy,
            (Signal::Sell, Signal::Sell) => Signal::Sell,
            (Signal::Buy, Signal::Hold) | (Signal::Hold, Signal::Buy) => Signal::Buy,
            (Signal::Sell, Signal::Hold) | (Signal::Hold, Signal::Sell) => Signal::Sell,
            _ => Signal::Hold,
        }
    }

    /// Numerator and denominator of the simple moving average of `period` at bar
    /// `i`.
    fn sma_at(candles: &[Candle], i: usize, period: usize) -> (r: (i128, i128))
        requires
            i < candles@.len() <= 0x8000_0000_0000_0000,
            1 <= period,
        ensures
            r.0 == sma_num(candles_view(candles@), i as int, period as int),
            r.1 == sma_den(i as int, period as int),
            -0x4000_0000_0000_0000_0000_0000_0000_0000 <= r.0 <= 0x4000_0000_0000_0000_0000_0000_0000_0000,
            1 <= r.1 <= 0x8000_0000_0000_0000,
    {
        let ghost s = candles_view(candles@);
        if i < period - 1 {
            return (0, 1);
        }
        let lo = i - (period - 1);
        let mut sum: i128 = 0;
        let mut j = lo;
        while j <= i
            invariant
                s == candles_view(candles@),
                lo <= j <= i + 1,
                i < candles@.len() <= 0x8000_0000_0000_0000,
                sum == close_sum(s, lo as int, j as int),
            decreases i + 1 - j,
        {
            proof {
                lemma_close_sum_bound(s, lo as int, j as int);
                assert((j - lo) * 0x8000_0000_0000_0000 <= 0x7fff_ffff_ffff_ffff * 0x8000_0000_0000_0000) by (nonlinear_arith)
                    requires
                        0 <= j - lo < 0x8000_0000_0000_0000,
                ;
                assert(candles@[j as int]@ == s[j as int]);
            }
            sum = sum + candles[j].close as i128;
            j = j + 1;
        }
        proof {
            lemma_close_sum_bound(s, lo as int, i as int + 1);
            assert((i + 1 - lo) * 0x8000_0000_0000_0000 <= 0x8000_0000_0000_0000 * 0x8000_0000_0000_0000) by (nonlinear_arith)
                requires
                    0 <= i + 1 - lo <= 0x8000_0000_0000_0000,
            ;
        }
        (sum, period as i128)
    }

    /// Crossover signal of a fast and a slow simple moving average of the closes
    /// (`ma_crossover_spec`), the averages compared exactly.
    pub fn ma_crossover(candles: &[Candle], fast_period: usize, slow_period: usize) -> (r: Result<Signal, String>)
        requires
            candles@.len() >= slow_period ==> candles@.len() >= 2,
            candles@.len() <= 0x8000_0000_0000_0000,
        ensures
            r == Ok::<Signal, String>(ma_crossover_spec(candles_view(candles@), fast_period as int, slow_period as int)),
    {
        let n = candles.len();
        if n < slow_period || fast_period == 0 || slow_period == 0 {
            return Ok(Signal::Hold);
        }
        let (fc_n, fc_d) = Self::sma_at(candles, n - 1, fast_period);
        let (fp_n, fp_d) = Self::sma_at(candles, n - 2, fast_period);
        let (sc_n, sc_d) = Self::sma_at(candles, n - 1, slow_period);
        let (sp_n, sp_d) = Self::sma_at(candles, n - 2, slow_period);
        let fast_prev_le = !frac_lt(sp_n, sp_d, fp_n, fp_d);
        let fast_curr_gt = frac_lt(sc_n, sc_d, fc_n, fc_d);
        let fast_prev_ge = !frac_lt(fp_n, fp_d, sp_n, sp_d);
        let fast_curr_lt = frac_lt(fc_n, fc_d, sc_n, sc_d);
        if fast_prev_le && fast_curr_gt {
            Ok(Signal::Buy)
        } else if fast_prev_ge && fast_curr_lt {
            Ok(Signal::Sell)
        } else {
            Ok(Signal::Hold)
        }
    }
}

} // verus!
