use vstd::prelude::*;
use crate::types::{Candle, CandleView, candles_view};
use super::time_order::{law_sort_dedup_ordered, same_key, sort_dedup, sort_dedup_spec};

verus! {

/// Deduplication, outlier damping, volume filling and gap interpolation.
pub struct DataCleaner;

/// Volume (thousandths) used before any positive volume was seen: 0.001.
pub const MIN_FILL_VOLUME: i64 = 1;

/// Below this volume (thousandths, i.e. 100.0) a jump of more than 50 % counts as an
/// outlier.
pub const OUTLIER_MAX_VOLUME: i64 = 100_000;

/// The last positive volume of `s`, or `MIN_FILL_VOLUME` when there is none.
pub open spec fn last_positive_volume(s: Seq<CandleView>) -> i64
    decreases s.len(),
{
    if s.len() == 0 {
        MIN_FILL_VOLUME
    } else if s.last().volume > 0 {
        s.last().volume
    } else {
        last_positive_volume(s.drop_last())
    }
}

/// A close more than 50 % away from a positive previous close.
pub open spec fn outlier_jump(prev: i64, close: i64) -> bool {
    prev > 0 && (if close >= prev { close - prev } else { prev - close }) * 2 > prev
}

/// One bar after volume filling and outlier damping: a non-positive volume takes
/// `fill`; then, after a previous bar, a close more than 50 % away from the
/// previous close on a volume under `OUTLIER_MAX_VOLUME` takes the previous close
/// (the high and low widened to include it).
pub open spec fn outlier_fix(c: CandleView, prev_close: Option<i64>, fill: i64) -> CandleView {
    let v = if c.volume > 0 { c.volume } else { fill };
    match prev_close {
        Some(p) => if outlier_jump(p, c.close) && v < OUTLIER_MAX_VOLUME {
            CandleView {
                volume: v,
                close: p,
                high: if c.high >= p { c.high } else { p },
                low: if c.low <= p { c.low } else { p },
                ..c
            }
        } else {
            CandleView { volume: v, ..c }
        },
        None => CandleView { volume: v, ..c },
    }
}

/// The volume and outlier pass over a series, each bar compared with the bar before
/// it as already fixed.
pub open spec fn outlier_run(s: Seq<CandleView>) -> Seq<CandleView>
    decreases s.len(),
{
    if s.len() == 0 {
        Seq::empty()
    } else {
        let p = outlier_run(s.drop_last());
        p.push(
            outlier_fix(
                s.last(),
                if p.len() > 0 { Some(p.last().close) } else { None },
                last_positive_volume(s.drop_last()),
            ),
        )
    }
}

proof fn lemma_last_positive_volume_positive(s: Seq<CandleView>)
    ensures
        last_positive_volume(s) > 0,
    decreases s.len(),
{
    if s.len() > 0 {
        lemma_last_positive_volume_positive(s.drop_last());
    }
}

proof fn lemma_outlier_run_shape(s: Seq<CandleView>)
    ensures
        outlier_run(s).len() == s.len(),
        forall|i: int| 0 <= i < s.len() ==> #[trigger] outlier_run(s)[i].volume > 0,
        forall|i: int| 0 <= i < s.len() ==> #[trigger] outlier_run(s)[i].timestamp == s[i].timestamp,
        forall|i: int| 0 <= i < s.len() ==> #[trigger] outlier_run(s)[i].symbol == s[i].symbol,
        forall|i: int|
            0 <= i < s.len() ==> #[trigger] outlier_run(s)[i].volume == (if s[i].volume > 0 {
                s[i].volume
            } else {
                last_positive_volume(s.take(i))
            }),
    decreases s.len(),
{
    if s.len() > 0 {
        let w = s.drop_last();
        lemma_outlier_run_shape(w);
        lemma_last_positive_volume_positive(w);
        let p = outlier_run(w);
        assert forall|i: int| 0 <= i < s.len() - 1 implies #[trigger] outlier_run(s)[i] == p[i] by {}
        assert forall|i: int| 0 <= i < s.len() - 1 implies #[trigger] w.take(i) == s.take(i) by {
            assert(w.take(i) =~= s.take(i));
        }
        assert(s.take(s.len() - 1) =~= w);
        assert forall|i: int| 0 <= i < s.len() implies #[trigger] outlier_run(s)[i].volume == (if s[i].volume > 0 {
            s[i].volume
        } else {
            last_positive_volume(s.take(i))
        }) by {
            if i < s.len() - 1 {
                assert(outlier_run(s)[i] == p[i]);
                assert(w[i] == s[i]);
                assert(w.take(i) == s.take(i));
            }
        }
    }
}

/// Number of bars missing between a bar at `t0` and the next at `t1` (epoch ms)
/// for bars `interval_secs` apart: whole intervals in the gap, counted in whole
/// seconds (truncated), less one; none when the gap is at most one interval.
pub open spec fn missing_bars(t0: i64, t1: i64, interval_secs: i64) -> int {
    let gap_secs = if t1 >= t0 { (t1 - t0) / 1000 } else { -((t0 - t1) / 1000) };
    if gap_secs > interval_secs {
        gap_secs / (interval_secs as int) - 1
    } else {
        0
    }
}

/// `num / den` truncated toward zero, for `den > 0`.
pub open spec fn div_trunc(num: int, den: int) -> int {
    if num >= 0 { num / den } else { -((-num) / den) }
}

/// Filler bar `j` (from 1) of `m` between bars `c` and `n`: open at the previous
/// close, close moved a fraction `j / (m + 1)` of the way to the next close
/// (truncated toward zero), high and low spanning both bars, minimal volume, at
/// `j` intervals after `c`.
pub open spec fn filler_bar(c: CandleView, n: CandleView, interval_secs: i64, m: int, j: int) -> CandleView {
    CandleView {
        timestamp: (c.timestamp + interval_secs * j * 1000) as i64,
        open: c.close,
        high: if c.high >= n.high { c.high } else { n.high },
        low: if c.low <= n.low { c.low } else { n.low },
        close: (c.close + div_trunc((n.close - c.close) * j, m + 1)) as i64,
        volume: MIN_FILL_VOLUME,
        symbol: c.symbol,
        interval: c.interval,
    }
}

/// The filler bars between `c` and `n`.
pub open spec fn fillers(c: CandleView, n: CandleView, interval_secs: i64) -> Seq<CandleView> {
    let m = missing_bars(c.timestamp, n.timestamp, interval_secs);
    Seq::new(m as nat, |k: int| filler_bar(c, n, interval_secs, m, k + 1))
}

/// Bars `0..k` of `s`, each followed by the fillers up to the next bar.
pub open spec fn with_fillers(s: Seq<CandleView>, k: int, interval_secs: i64) -> Seq<CandleView>
    decreases k,
{
    if k <= 0 {
        Seq::empty()
    } else {
        with_fillers(s, k - 1, interval_secs) + seq![s[k - 1]] + fillers(s[k - 1], s[k], interval_secs)
    }
}

/// A series with the missing bars of every gap filled in; fewer than two bars are
/// left as they are.
pub open spec fn interpolate_spec(s: Seq<CandleView>, interval_secs: i64) -> Seq<CandleView> {
    if s.len() < 2 {
        s
    } else {
        with_fillers(s, s.len() - 1, interval_secs).push(s.last())
    }
}

/// Filler bar `j` of `m` between `c` and `n`.
fn make_filler(c: &Candle, n: &Candle, interval_secs: i64, m: i64, j: i64) -> (r: Candle)
    requires
        interval_secs > 0,
        1 <= j <= m,
        m == missing_bars(c.timestamp, n.timestamp, interval_secs),
    ensures
        r@ == filler_bar(c@, n@, interval_secs, m as int, j as int),
{
    proof {
        lemma_filler_time_fits(c.timestamp, n.timestamp, interval_secs, m as int, j as int);
        lemma_filler_close_fits(c.close as int, n.close as int, m as int, j as int);
    }
    let ts: i128 = c.timestamp as i128 + interval_secs as i128 * j as i128 * 1000;
    assert(j < 0x80_0000_0000_0000);
    assert((n.close - c.close) * j <= 0x1_0000_0000_0000_0000 * 0x80_0000_0000_0000) by (nonlinear_arith)
        requires
            0 < j < 0x80_0000_0000_0000,
            -0x1_0000_0000_0000_0000 <= n.close - c.close <= 0x1_0000_0000_0000_0000,
    ;
    assert((n.close - c.close) * j >= -0x1_0000_0000_0000_0000 * 0x80_0000_0000_0000) by (nonlinear_arith)
        requires
            0 < j < 0x80_0000_0000_0000,
            -0x1_0000_0000_0000_0000 <= n.close - c.close <= 0x1_0000_0000_0000_0000,
    ;
    let d: i128 = (n.close as i128 - c.close as i128) * j as i128;
    let den: i128 = m as i128 + 1;
    let step: i128 = if d >= 0 {
        d / den
    } else {
        -((-d) / den)
    };
    let close: i128 = c.close as i128 + step;
    Candle {
        timestamp: ts as i64,
        open: c.close,
        high: if c.high >= n.high {
            c.high
        } else {
            n.high
        },
        low: if c.low <= n.low {
            c.low
        } else {
            n.low
        },
        close: close as i64,
        volume: MIN_FILL_VOLUME,
        symbol: c.symbol.clone(),
        interval: c.interval.clone(),
    }
}

/// Filler timestamps stay strictly before the next bar.
proof fn lemma_filler_time_fits(t0: i64, t1: i64, interval_secs: i64, m: int, j: int)
    requires
        interval_secs > 0,
        1 <= j <= m,
        m == missing_bars(t0, t1, interval_secs),
    ensures
        t0 < t0 + interval_secs * j * 1000 < t1,
        m < 0x80_0000_0000_0000,
{
    let gap_secs: int = if t1 >= t0 { (t1 - t0) / 1000 } else { -((t0 - t1) / 1000) };
    assert(gap_secs > interval_secs);
    assert(t1 >= t0);
    let q = gap_secs / (interval_secs as int);
    assert(m == q - 1);
    assert(interval_secs * j <= interval_secs * (q - 1)) by (nonlinear_arith)
        requires
            interval_secs > 0,
            j <= q - 1,
    ;
    assert(interval_secs * q <= gap_secs) by (nonlinear_arith)
        requires
            interval_secs > 0,
            q == gap_secs / (interval_secs as int),
            gap_secs >= 0,
    ;
    assert(gap_secs * 1000 <= t1 - t0) by (nonlinear_arith)
        requires
            gap_secs == (t1 - t0) / 1000,
            t1 - t0 >= 0,
    ;
    assert(interval_secs * j * 1000 <= (gap_secs - interval_secs) * 1000) by (nonlinear_arith)
        requires
            interval_secs * j <= interval_secs * (q - 1),
            interval_secs * q <= gap_secs,
    ;
    assert(interval_secs * j * 1000 > 0) by (nonlinear_arith)
        requires
            interval_secs > 0,
            j >= 1,
    ;
    assert(q <= gap_secs) by (nonlinear_arith)
        requires
            interval_secs > 0,
            q == gap_secs / (interval_secs as int),
            gap_secs >= 0,
    ;
}

/// The interpolated close lies between the two closes.
proof fn lemma_filler_close_fits(a: int, b: int, m: int, j: int)
    requires
        1 <= j <= m,
    ensures
        (a <= b ==> a <= a + div_trunc((b - a) * j, m + 1) <= b),
        (b < a ==> b <= a + div_trunc((b - a) * j, m + 1) <= a),
{
    if a <= b {
        assert(0 <= (b - a) * j <= (b - a) * (m + 1)) by (nonlinear_arith)
            requires
                a <= b,
                1 <= j <= m,
        ;
        assert(0 <= ((b - a) * j) / (m + 1) <= b - a) by (nonlinear_arith)
            requires
                0 <= (b - a) * j <= (b - a) * (m + 1),
                m + 1 > 0,
        ;
    } else {
        assert(0 <= (a - b) * j <= (a - b) * (m + 1)) by (nonlinear_arith)
            requires
                b < a,
                1 <= j <= m,
        ;
        assert((b - a) * j == -((a - b) * j)) by (nonlinear_arith);
        assert(0 <= ((a - b) * j) / (m + 1) <= a - b) by (nonlinear_arith)
            requires
                0 <= (a - b) * j <= (a - b) * (m + 1),
                m + 1 > 0,
        ;
    }
}

/// Filler law: every bar filled in between `c` and `n` spans both neighbours (its
/// high is the higher of their highs, its low the lower of their lows), opens at
/// `c`'s close, closes between the two closes, and lies strictly between them in
/// time. So when both neighbours are valid bars, each filler's open and close lie
/// within its own low and high.
pub proof fn law_filler_bars(c: CandleView, n: CandleView, interval_secs: i64, k: int)
    requires
        interval_secs > 0,
        0 <= k < fillers(c, n, interval_secs).len(),
    ensures
        ({
            let f = fillers(c, n, interval_secs)[k];
            &&& f.high >= c.high && f.high >= n.high
            &&& (f.high == c.high || f.high == n.high)
            &&& f.low <= c.low && f.low <= n.low
            &&& (f.low == c.low || f.low == n.low)
            &&& f.open == c.close
            &&& (c.close <= n.close ==> c.close <= f.close <= n.close)
            &&& (n.close < c.close ==> n.close <= f.close <= c.close)
            &&& c.timestamp < f.timestamp < n.timestamp
            &&& f.symbol == c.symbol && f.interval == c.interval
            &&& (c.low <= c.close <= c.high && n.low <= n.close <= n.high ==> f.low <= f.open <= f.high && f.low
                <= f.close <= f.high)
        }),
{
    let m = missing_bars(c.timestamp, n.timestamp, interval_secs);
    lemma_missing_bars_nonneg(c.timestamp, n.timestamp, interval_secs);
    lemma_filler_time_fits(c.timestamp, n.timestamp, interval_secs, m, k + 1);
    lemma_filler_close_fits(c.close as int, n.close as int, m, k + 1);
}

/// Timestamps strictly increase along `s`.
pub open spec fn strictly_timed(s: Seq<CandleView>) -> bool {
    forall|i: int, j: int| 0 <= i < j < s.len() ==> #[trigger] s[i].timestamp < #[trigger] s[j].timestamp
}

/// Every timestamp of `s` lies strictly between `lo` and `hi`.
pub open spec fn timed_within(s: Seq<CandleView>, lo: int, hi: int) -> bool {
    forall|i: int| 0 <= i < s.len() ==> lo < #[trigger] s[i].timestamp < hi
}

proof fn lemma_concat_timed(a: Seq<CandleView>, b: Seq<CandleView>, t: int)
    requires
        strictly_timed(a),
        strictly_timed(b),
        forall|i: int| 0 <= i < a.len() ==> #[trigger] a[i].timestamp < t,
        forall|i: int| 0 <= i < b.len() ==> #[trigger] b[i].timestamp >= t,
    ensures
        strictly_timed(a + b),
{
    let c = a + b;
    assert forall|i: int, j: int| 0 <= i < j < c.len() implies #[trigger] c[i].timestamp < #[trigger] c[j].timestamp by {
        if j < a.len() {
            assert(c[i] == a[i] && c[j] == a[j]);
        } else if i >= a.len() {
            assert(c[i] == b[i - a.len()] && c[j] == b[j - a.len()]);
        } else {
            assert(c[i] == a[i] && c[j] == b[j - a.len()]);
        }
    }
}

proof fn lemma_missing_bars_nonneg(t0: i64, t1: i64, interval_secs: i64)
    requires
        interval_secs > 0,
    ensures
        missing_bars(t0, t1, interval_secs) >= 0,
{
    let gap_secs: int = if t1 >= t0 { (t1 - t0) / 1000 } else { -((t0 - t1) / 1000) };
    if gap_secs > interval_secs {
        let iv = interval_secs as int;
        assert(gap_secs / iv >= 1) by (nonlinear_arith)
            requires
                gap_secs > iv,
                iv > 0,
        ;
    }
}

proof fn lemma_fillers_timed(c: CandleView, n: CandleView, interval_secs: i64)
    requires
        interval_secs > 0,
    ensures
        strictly_timed(fillers(c, n, interval_secs)),
        timed_within(fillers(c, n, interval_secs), c.timestamp as int, n.timestamp as int),
{
    let m = missing_bars(c.timestamp, n.timestamp, interval_secs);
    let f = fillers(c, n, interval_secs);
    lemma_missing_bars_nonneg(c.timestamp, n.timestamp, interval_secs);
    assert(f.len() == m);
    assert forall|i: int| 0 <= i < f.len() implies c.timestamp < #[trigger] f[i].timestamp < n.timestamp by {
        lemma_filler_time_fits(c.timestamp, n.timestamp, interval_secs, m, i + 1);
    }
    assert forall|i: int, j: int| 0 <= i < j < f.len() implies #[trigger] f[i].timestamp < #[trigger] f[j].timestamp by {
        lemma_filler_time_fits(c.timestamp, n.timestamp, interval_secs, m, i + 1);
        lemma_filler_time_fits(c.timestamp, n.timestamp, interval_secs, m, j + 1);
        assert(interval_secs * (i + 1) * 1000 < interval_secs * (j + 1) * 1000) by (nonlinear_arith)
            requires
                interval_secs > 0,
                i < j,
        ;
    }
}

proof fn lemma_with_fillers_timed(s: Seq<CandleView>, k: int, interval_secs: i64)
    requires
        interval_secs > 0,
        0 <= k < s.len(),
        strictly_timed(s),
    ensures
        strictly_timed(with_fillers(s, k, interval_secs)),
        forall|i: int| 0 <= i < with_fillers(s, k, interval_secs).len() ==> #[trigger] with_fillers(s, k, interval_secs)[i].timestamp
            < s[k].timestamp,
    decreases k,
{
    if k > 0 {
        lemma_with_fillers_timed(s, k - 1, interval_secs);
        let w = with_fillers(s, k - 1, interval_secs);
        let f = fillers(s[k - 1], s[k], interval_secs);
        lemma_fillers_timed(s[k - 1], s[k], interval_secs);
        assert(s[k - 1].timestamp < s[k].timestamp);
        let ws = w + seq![s[k - 1]];
        lemma_concat_timed(w, seq![s[k - 1]], s[k - 1].timestamp as int);
        lemma_concat_timed(ws, f, s[k - 1].timestamp as int + 1);
        assert(with_fillers(s, k, interval_secs) == ws + f);
        assert forall|i: int| 0 <= i < (ws + f).len() implies #[trigger] (ws + f)[i].timestamp < s[k].timestamp by {
            if i < w.len() {
                assert((ws + f)[i] == w[i]);
            } else if i == w.len() {
                assert((ws + f)[i] == s[k - 1]);
            } else {
                assert((ws + f)[i] == f[i - ws.len()]);
            }
        }
    }
}

/// Filling gaps keeps time order: when the input's timestamps strictly increase,
/// so do the output's, every filler lying strictly between its two bars.
pub proof fn law_interpolation_keeps_time_order(s: Seq<CandleView>, interval_secs: i64)
    requires
        interval_secs > 0,
        strictly_timed(s),
    ensures
        strictly_timed(interpolate_spec(s, interval_secs)),
{
    if s.len() >= 2 {
        let k = s.len() - 1;
        lemma_with_fillers_timed(s, k, interval_secs);
        let w = with_fillers(s, k, interval_secs);
        assert(strictly_timed(seq![s.last()]));
        lemma_concat_timed(w, seq![s.last()], s.last().timestamp as int);
        assert(w.push(s.last()) =~= w + seq![s.last()]);
    }
}

impl DataCleaner {
    /// Cleans a series in place: stable sort by timestamp, removal of every bar
    /// whose (timestamp, symbol) occurred before, then the volume and outlier pass.
    /// Every volume of the result is positive and no two bars share a timestamp and
    /// symbol. Always `Ok`.
    #[verifier::spinoff_prover]
    pub fn clean(candles: &mut Vec<Candle>) -> (r: Result<(), String>)
        ensures
            r is Ok,
            candles_view(final(candles)@) == outlier_run(sort_dedup_spec(candles_view(old(candles)@), true)),
            final(candles)@.len() <= old(candles)@.len(),
            forall|i: int| 0 <= i < final(candles)@.len() ==> #[trigger] final(candles)@[i].volume > 0,
            ({
                let o = sort_dedup_spec(candles_view(old(candles)@), true);
                forall|i: int|
                    0 <= i < final(candles)@.len() ==> {
                        &&& #[trigger] final(candles)@[i].timestamp == o[i].timestamp
                        &&& final(candles)@[i].symbol@ == o[i].symbol
                        &&& final(candles)@[i].volume == (if o[i].volume > 0 {
                            o[i].volume
                        } else {
                            last_positive_volume(o.take(i))
                        })
                    }
            }),
            forall|i: int, j: int|
                0 <= i < j < final(candles)@.len() ==> #[trigger] final(candles)@[i].timestamp
                    <= #[trigger] final(candles)@[j].timestamp && !same_key(
                    final(candles)@[i]@,
                    final(candles)@[j]@,
                    true,
                ),
    {
        let ghost s = candles_view(candles@);
        let mut sorted = sort_dedup(candles, true);
        proof {
            law_sort_dedup_ordered(s, true);
        }
        let ghost o = candles_view(sorted@);
        Self::handle_outliers_and_volume(&mut sorted);
        proof {
            lemma_outlier_run_shape(o);
            assert(o == sort_dedup_spec(s, true));
            let r = candles_view(sorted@);
            assert forall|i: int| 0 <= i < sorted@.len() implies {
                &&& #[trigger] sorted@[i].timestamp == o[i].timestamp
                &&& sorted@[i].symbol@ == o[i].symbol
                &&& sorted@[i].volume == (if o[i].volume > 0 {
                    o[i].volume
                } else {
                    last_positive_volume(o.take(i))
                })
            } by {
                assert(r[i] == sorted@[i]@);
                assert(outlier_run(o)[i].timestamp == o[i].timestamp);
                assert(outlier_run(o)[i].symbol == o[i].symbol);
                assert(outlier_run(o)[i].volume == (if o[i].volume > 0 {
                    o[i].volume
                } else {
                    last_positive_volume(o.take(i))
                }));
            }
            assert forall|i: int| 0 <= i < sorted@.len() implies #[trigger] sorted@[i].volume > 0 by {
                assert(r[i] == sorted@[i]@);
                assert(outlier_run(o)[i].volume > 0);
            }
            assert forall|i: int, j: int|
                0 <= i < j < sorted@.len() implies #[trigger] sorted@[i].timestamp <= #[trigger] sorted@[j].timestamp
                && !same_key(sorted@[i]@, sorted@[j]@, true) by {
                assert(r[i] == sorted@[i]@);
                assert(r[j] == sorted@[j]@);
                assert(outlier_run(o)[i].timestamp == o[i].timestamp);
                assert(outlier_run(o)[j].timestamp == o[j].timestamp);
                assert(outlier_run(o)[i].symbol == o[i].symbol);
                assert(outlier_run(o)[j].symbol == o[j].symbol);
                assert(o == sort_dedup_spec(s, true));
                assert(o[i].timestamp <= o[j].timestamp);
                assert(!same_key(o[i], o[j], true));
            }
        }
        let ghost fin = sorted@;
        *candles = sorted;
        assert(candles@ == fin);
        proof {
            let o2 = sort_dedup_spec(s, true);
            assert(o2 == o);
            assert forall|i: int| 0 <= i < candles@.len() implies {
                &&& #[trigger] candles@[i].timestamp == o2[i].timestamp
                &&& candles@[i].symbol@ == o2[i].symbol
                &&& candles@[i].volume == (if o2[i].volume > 0 {
                    o2[i].volume
                } else {
                    last_positive_volume(o2.take(i))
                })
            } by {
                assert(candles@[i] == fin[i]);
                assert(fin[i].timestamp == o[i].timestamp);
            }
        }
        Ok(())
    }

    /// The volume and outlier pass (`outlier_run`) in place.
    pub fn handle_outliers_and_volume(candles: &mut Vec<Candle>)
        ensures
            candles_view(final(candles)@) == outlier_run(candles_view(old(candles)@)),
    {
        let ghost s = candles_view(candles@);
        let mut last_valid_vol: i64 = MIN_FILL_VOLUME;
        let n = candles.len();
        let mut i: usize = 0;
        while i < n
            invariant
                n == candles.len(),
                s.len() == n,
                0 <= i <= n,
                last_valid_vol == last_positive_volume(s.take(i as int)),
                candles_view(candles@).take(i as int) == outlier_run(s.take(i as int)),
                forall|k: int| i <= k < n ==> #[trigger] candles@[k]@ == s[k],
            decreases n - i,
        {
            proof {
                assert(s.take(i as int + 1).drop_last() =~= s.take(i as int));
                assert(s.take(i as int + 1).last() == s[i as int]);
                lemma_outlier_run_shape(s.take(i as int));
            }
            let prev_close: Option<i64> = if i > 0 {
                Some(candles[i - 1].close)
            } else {
                None
            };
            proof {
                if i > 0 {
                    assert(candles_view(candles@).take(i as int)[i - 1] == candles@[i - 1]@);
                }
            }
            let mut c = candles[i].clone();
            assert(c@ == s[i as int]);
            if c.volume > 0 {
                last_valid_vol = c.volume;
            } else {
                c.volume = last_valid_vol;
            }
            match prev_close {
                Some(p) => {
                    let diff: i128 = if c.close >= p {
                        c.close as i128 - p as i128
                    } else {
                        p as i128 - c.close as i128
                    };
                    if p > 0 && diff * 2 > p as i128 && c.volume < OUTLIER_MAX_VOLUME {
                        c.close = p;
                        if c.high < p {
                            c.high = p;
                        }
                        if c.low > p {
                            c.low = p;
                        }
                    }
                },
                None => {},
            }
            let ghost before = candles_view(candles@);
            candles.set(i, c);
            proof {
                let fixed = outlier_fix(
                    s[i as int],
                    prev_close,
                    last_positive_volume(s.take(i as int)),
                );
                assert(candles@[i as int]@ == fixed);
                assert(outlier_run(s.take(i as int + 1)) == outlier_run(s.take(i as int)).push(fixed));
                assert(candles_view(candles@).take(i as int + 1) =~= outlier_run(s.take(i as int + 1)));
            }
            i = i + 1;
        }
        proof {
            assert(s.take(n as int) =~= s);
            assert(candles_view(candles@).take(n as int) =~= candles_view(candles@));
        }
    }

    /// Fills every gap longer than one interval with filler bars (`filler_bar`),
    /// `interval_secs` apart; a series of fewer than two bars is unchanged. Always
    /// `Ok`.
    pub fn interpolate_missing_candles(candles: &mut Vec<Candle>, interval_secs: i64) -> (r: Result<(), String>)
        requires
            interval_secs > 0,
        ensures
            r is Ok,
            candles_view(final(candles)@) == interpolate_spec(candles_view(old(candles)@), interval_secs),
    {
        let ghost s = candles_view(candles@);
        let n = candles.len();
        if n < 2 {
            return Ok(());
        }
        let mut out: Vec<Candle> = Vec::new();
        let mut i: usize = 0;
        while i < n - 1
            invariant
                n == candles.len(),
                n >= 2,
                s == candles_view(candles@),
                interval_secs > 0,
                0 <= i <= n - 1,
                candles_view(out@) == with_fillers(s, i as int, interval_secs),
            decreases n - 1 - i,
        {
            let curr = &candles[i];
            let next = &candles[i + 1];
            assert(curr@ == s[i as int]);
            assert(next@ == s[i as int + 1]);
            out.push(curr.clone());
            let gap_ms: i128 = next.timestamp as i128 - curr.timestamp as i128;
            let gap_secs: i128 = if gap_ms >= 0 {
                gap_ms / 1000
            } else {
                -((-gap_ms) / 1000)
            };
            let m: i64 = if gap_secs > interval_secs as i128 {
                (gap_secs / interval_secs as i128 - 1) as i64
            } else {
                0
            };
            assert(m == missing_bars(curr.timestamp, next.timestamp, interval_secs) && m >= 0) by {
                if gap_secs > interval_secs as i128 {
                    assert(gap_secs / interval_secs as i128 <= gap_secs) by (nonlinear_arith)
                        requires
                            gap_secs > 0,
                            interval_secs > 0,
                    ;
                    assert(gap_secs <= i64::MAX);
                    assert(gap_secs / interval_secs as i128 >= 1) by (nonlinear_arith)
                        requires
                            gap_secs > interval_secs,
                            interval_secs > 0,
                    ;
                }
            }
            let ghost base = candles_view(out@);
            proof {
                if m >= 1 {
                    lemma_filler_time_fits(curr.timestamp, next.timestamp, interval_secs, m as int, 1);
                }
            }
            let mut j: i64 = 1;
            while j <= m
                invariant
                    1 <= j <= m + 1,
                    0 <= m < 0x80_0000_0000_0000,
                    interval_secs > 0,
                    m == missing_bars(curr.timestamp, next.timestamp, interval_secs),
                    candles_view(out@) == base + fillers(curr@, next@, interval_secs).take(j - 1),
                decreases m + 1 - j,
            {
                let f = make_filler(curr, next, interval_secs, m, j);
                let ghost before = candles_view(out@);
                out.push(f);
                assert(candles_view(out@) =~= before.push(f@));
                proof {
                    assert(fillers(curr@, next@, interval_secs)[j - 1] == f@);
                    assert(fillers(curr@, next@, interval_secs).take(j as int) =~= fillers(curr@, next@, interval_secs).take(
                        j - 1,
                    ).push(f@));
                    assert(candles_view(out@) =~= base + fillers(curr@, next@, interval_secs).take(j as int));
                }
                j = j + 1;
            }
            proof {
                assert(fillers(curr@, next@, interval_secs).take(m as int) =~= fillers(curr@, next@, interval_secs));
                assert(with_fillers(s, i as int + 1, interval_secs) =~= with_fillers(s, i as int, interval_secs) + seq![
                    s[i as int],
                ] + fillers(s[i as int], s[i as int + 1], interval_secs));
                assert(candles_view(out@) =~= with_fillers(s, i as int + 1, interval_secs));
            }
            i = i + 1;
        }
        let last = candles[n - 1].clone();
        out.push(last);
        proof {
            assert(candles_view(out@) =~= interpolate_spec(s, interval_secs));
        }
        *candles = out;
        Ok(())
    }
}

} // verus!
