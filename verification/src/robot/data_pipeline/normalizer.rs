use vstd::prelude::*;
use crate::text::{lowercase, parse_u64, parsed_u64, remove_chars, str_equals, to_lower, to_upper, uppercase, without_chars};
use crate::types::{Candle, CandleView, candles_view};
use super::time_order::{kept_positions, law_sort_dedup_ordered, sort_dedup, sort_dedup_spec};

verus! {

/// Bar cleaning, spike damping and standardization.
pub struct DataNormalizer;

/// Seconds of an interval given its lowercase form and what parsing the raw token
/// as `u64` gave: the seven known tokens, else the parsed number, else 60.
pub open spec fn interval_secs_spec(lower: Seq<char>, parsed: Option<u64>) -> u64 {
    if lower == "1m"@ {
        60
    } else if lower == "5m"@ {
        300
    } else if lower == "15m"@ {
        900
    } else if lower == "30m"@ {
        1800
    } else if lower == "1h"@ {
        3600
    } else if lower == "4h"@ {
        14400
    } else if lower == "1d"@ {
        86400
    } else {
        match parsed {
            Some(v) => v,
            None => 60,
        }
    }
}

/// Characters dropped from a symbol when it is standardized.
pub open spec fn symbol_separators() -> Seq<char> {
    seq!['-', '_', '/', ':']
}

/// Volume (thousandths) rounded to hundredths, halves away from zero.
pub open spec fn round_volume_spec(v: i64) -> int {
    if v >= 0 {
        (v + 5) / 10 * 10
    } else {
        -((-v + 5) / 10 * 10)
    }
}

/// A volume whose rounding stays inside `i64`.
pub open spec fn volume_roundable(c: CandleView) -> bool {
    -(i64::MAX - 5) <= c.volume <= i64::MAX - 5
}

/// A close more than 20 % above `prev`.
pub open spec fn spike_up(prev: i64, close: i64) -> bool {
    (close - prev) * 5 > prev
}

/// A close more than 20 % below `prev`.
pub open spec fn spike_down(prev: i64, close: i64) -> bool {
    (prev - close) * 5 > prev
}

/// `x` times `tenths` / 10, rounded to the nearest unit, halves up.
pub open spec fn scale_tenths(x: i64, tenths: int) -> int {
    (tenths * x + 5) / 10
}

/// A bar after the price guards, given the close of the bar kept before it: a
/// non-positive close takes the previous close for all four prices, and a close
/// more than 20 % away from the previous one is pulled back to exactly 20 % away
/// (the high and low widened to include it).
pub open spec fn guard_prices(c: CandleView, prev: Option<i64>) -> CandleView {
    let fixed = match prev {
        Some(p) => if c.close <= 0 {
            CandleView { open: p, high: p, low: p, close: p, ..c }
        } else {
            c
        },
        None => c,
    };
    match prev {
        Some(p) => if spike_up(p, fixed.close) || spike_down(p, fixed.close) {
            let nc = (if spike_up(p, fixed.close) { scale_tenths(p, 12) } else { scale_tenths(p, 8) }) as i64;
            CandleView {
                close: nc,
                high: if fixed.high >= nc { fixed.high } else { nc },
                low: if fixed.low <= nc { fixed.low } else { nc },
                ..fixed
            }
        } else {
            fixed
        },
        None => fixed,
    }
}

/// A bar fully standardized: price guards, symbol uppercased without separators,
/// interval lowercased, volume rounded to hundredths.
pub open spec fn standardize_bar(c: CandleView, prev: Option<i64>) -> CandleView {
    CandleView {
        symbol: without_chars(uppercase(c.symbol), symbol_separators()),
        interval: lowercase(c.interval),
        volume: round_volume_spec(c.volume) as i64,
        ..guard_prices(c, prev)
    }
}

/// Standardization of a time-ordered, deduplicated run: each bar is guarded
/// against the close of the last bar kept before it; while no bar is kept yet, a
/// bar with a non-positive close is skipped (there is no close to repair it with).
pub open spec fn standardize_run(o: Seq<CandleView>) -> Seq<CandleView>
    decreases o.len(),
{
    if o.len() == 0 {
        Seq::empty()
    } else {
        let p = standardize_run(o.drop_last());
        if p.len() == 0 {
            if o.last().close > 0 {
                seq![standardize_bar(o.last(), None)]
            } else {
                p
            }
        } else {
            p.push(standardize_bar(o.last(), Some(p.last().close)))
        }
    }
}

/// Number of leading bars with a non-positive close: the bars skipped before the
/// first one kept.
pub open spec fn leading_unusable(o: Seq<CandleView>) -> nat
    decreases o.len(),
{
    if o.len() == 0 {
        0
    } else if o[0].close > 0 {
        0
    } else {
        1 + leading_unusable(o.drop_first())
    }
}

/// Every volume of the input can be rounded without leaving `i64`.
pub open spec fn standardizable(s: Seq<CandleView>) -> bool {
    forall|i: int| 0 <= i < s.len() ==> volume_roundable(#[trigger] s[i])
}

proof fn lemma_leading_unusable(o: Seq<CandleView>)
    ensures
        leading_unusable(o) <= o.len(),
        forall|k: int| 0 <= k < leading_unusable(o) ==> #[trigger] o[k].close <= 0,
        leading_unusable(o) < o.len() ==> o[leading_unusable(o) as int].close > 0,
    decreases o.len(),
{
    if o.len() > 0 && o[0].close <= 0 {
        lemma_leading_unusable(o.drop_first());
        assert forall|k: int| 0 <= k < leading_unusable(o) implies #[trigger] o[k].close <= 0 by {
            if k > 0 {
                assert(o[k] == o.drop_first()[k - 1]);
            }
        }
        if leading_unusable(o) < o.len() {
            assert(o[leading_unusable(o) as int] == o.drop_first()[leading_unusable(o.drop_first()) as int]);
        }
    }
}

proof fn lemma_standardize_run_shape(o: Seq<CandleView>, f: int)
    requires
        0 <= f <= o.len(),
        forall|k: int| 0 <= k < f ==> #[trigger] o[k].close <= 0,
        f < o.len() ==> o[f].close > 0,
        forall|i: int| 0 <= i < o.len() ==> volume_roundable(#[trigger] o[i]),
    ensures
        standardize_run(o).len() == o.len() - f,
        forall|i: int| 0 <= i < o.len() - f ==> #[trigger] standardize_run(o)[i].timestamp == o[f + i].timestamp,
        forall|i: int| 0 <= i < o.len() - f ==> #[trigger] standardize_run(o)[i].close > 0,
        forall|i: int| 0 <= i < o.len() - f ==> #[trigger] standardize_run(o)[i].volume == round_volume_spec(o[f + i].volume),
        forall|i: int|
            0 <= i < o.len() - f ==> #[trigger] standardize_run(o)[i].symbol == without_chars(
                uppercase(o[f + i].symbol),
                symbol_separators(),
            ),
        forall|i: int| 0 <= i < o.len() - f ==> #[trigger] standardize_run(o)[i].interval == lowercase(o[f + i].interval),
        forall|i: int|
            1 <= i < o.len() - f ==> 8 * standardize_run(o)[i - 1].close - 4 <= 10 * #[trigger] standardize_run(o)[i].close
                <= 12 * standardize_run(o)[i - 1].close + 5,
    decreases o.len(),
{
    if o.len() > 0 {
        let w = o.drop_last();
        let fw = if f < w.len() { f } else { w.len() as int };
        assert forall|i: int| 0 <= i < w.len() implies volume_roundable(#[trigger] w[i]) by {
            assert(w[i] == o[i]);
        }
        assert forall|k: int| 0 <= k < fw implies #[trigger] w[k].close <= 0 by {
            assert(w[k] == o[k]);
        }
        if fw < w.len() {
            assert(w[fw] == o[fw]);
        }
        lemma_standardize_run_shape(w, fw);
        let p = standardize_run(w);
        let r = standardize_run(o);
        let c = o.last();
        if p.len() == 0 {
            assert(fw == w.len());
            if c.close > 0 {
                assert(f == o.len() - 1);
                assert(r[0] == standardize_bar(c, None));
            } else {
                assert(f == o.len());
            }
        } else {
            assert(f == fw);
            let pc = p.last().close;
            let g = guard_prices(c, Some(pc));
            let fixed_close = if c.close <= 0 { pc } else { c.close };
            assert(pc > 0);
            if spike_up(pc, fixed_close) {
                assert(g.close == scale_tenths(pc, 12));
                assert(10 * g.close <= 12 * pc + 5);
                assert(10 * g.close > 12 * pc + 5 - 10);
            } else if spike_down(pc, fixed_close) {
                assert(g.close == scale_tenths(pc, 8));
                assert(10 * g.close <= 8 * pc + 5);
                assert(10 * g.close > 8 * pc + 5 - 10);
            } else {
                assert(g.close == fixed_close);
            }
            assert(r[r.len() - 1] == standardize_bar(c, Some(pc)));
            assert(r.len() - 1 == o.len() - 1 - f);
            assert(o[f + (r.len() - 1)] == c);
            assert forall|i: int| 0 <= i < r.len() - 1 implies #[trigger] r[i] == p[i] by {
            }
            assert forall|i: int| 0 <= i < o.len() - f - 1 implies #[trigger] o[f + i] == w[f + i] by {
            }
        }
    }
}

/// `x * tenths / 10` rounded halves up, for `x > 0` and `tenths` 8 or 12, when the
/// result is at most `cap`.
fn scaled_tenths(x: i64, tenths: i64, cap: i64) -> (r: i64)
    requires
        x > 0,
        tenths == 8 || tenths == 12,
        scale_tenths(x, tenths as int) <= cap,
    ensures
        r == scale_tenths(x, tenths as int),
{
    let v: i128 = (tenths as i128 * x as i128 + 5) / 10;
    v as i64
}

/// Volume rounded to hundredths, halves away from zero.
fn round_volume(v: i64) -> (r: i64)
    requires
        -(i64::MAX - 5) <= v <= i64::MAX - 5,
    ensures
        r == round_volume_spec(v),
{
    if v >= 0 {
        (v + 5) / 10 * 10
    } else {
        let w: i64 = -v;
        -((w + 5) / 10 * 10)
    }
}

impl DataNormalizer {
    /// Seconds of an interval from its lowercase form and the raw token parsed as
    /// `u64`: `"1m"` 60 up to `"1d"` 86400, else the parsed number, else 60.
    pub fn interval_secs_from(lower: &str, parsed: Option<u64>) -> (r: u64)
        ensures
            r == interval_secs_spec(lower@, parsed),
    {
        if str_equals(lower, "1m") {
            60
        } else if str_equals(lower, "5m") {
            300
        } else if str_equals(lower, "15m") {
            900
        } else if str_equals(lower, "30m") {
            1800
        } else if str_equals(lower, "1h") {
            3600
        } else if str_equals(lower, "4h") {
            14400
        } else if str_equals(lower, "1d") {
            86400
        } else {
            match parsed {
                Some(v) => v,
                None => 60,
            }
        }
    }

    /// Seconds of an interval token, case-insensitive for the seven known tokens;
    /// a bare number is taken as seconds; anything else counts as one minute.
    pub fn parse_interval(interval: &str) -> (r: u64)
        ensures
            r == interval_secs_spec(lowercase(interval@), parsed_u64(interval@)),
    {
        let lower = to_lower(interval);
        let parsed = parse_u64(interval);
        Self::interval_secs_from(lower.as_str(), parsed)
    }

    /// Standardizes a batch of bars: stable time sort with duplicates of a timestamp
    /// dropped (the earliest kept), then `standardize_run`: each bar is guarded
    /// against the close of the last bar kept (a non-positive close takes that
    /// close, a move over 20 % is pulled back to 20 %), leading bars with a
    /// non-positive close are skipped, symbol and interval are normalized and the
    /// volume rounded to hundredths. The output is strictly time-ordered, every
    /// close is positive, and each close stays within 20 % (rounded) of the one
    /// before it.
    #[verifier::rlimit(40)]
    pub fn process_and_standardize(candles: Vec<Candle>) -> (r: Vec<Candle>)
        requires
            standardizable(candles_view(candles@)),
        ensures
            candles_view(r@) == standardize_run(sort_dedup_spec(candles_view(candles@), false)),
            r@.len() == sort_dedup_spec(candles_view(candles@), false).len() - leading_unusable(
                sort_dedup_spec(candles_view(candles@), false),
            ),
            forall|i: int, j: int| 0 <= i < j < r.len() ==> r@[i].timestamp < r@[j].timestamp,
            forall|i: int|
                0 <= i < r.len() ==> #[trigger] r@[i].timestamp == sort_dedup_spec(candles_view(candles@), false)[leading_unusable(
                    sort_dedup_spec(candles_view(candles@), false),
                ) + i].timestamp,
            forall|i: int| 0 <= i < r.len() ==> #[trigger] r@[i].close > 0,
            forall|i: int|
                0 <= i < r.len() ==> #[trigger] r@[i].symbol@ == without_chars(
                    uppercase(
                        sort_dedup_spec(candles_view(candles@), false)[leading_unusable(
                            sort_dedup_spec(candles_view(candles@), false),
                        ) + i].symbol,
                    ),
                    symbol_separators(),
                ),
            forall|i: int|
                0 <= i < r.len() ==> #[trigger] r@[i].interval@ == lowercase(
                    sort_dedup_spec(candles_view(candles@), false)[leading_unusable(
                        sort_dedup_spec(candles_view(candles@), false),
                    ) + i].interval,
                ),
            forall|i: int|
                0 <= i < r.len() ==> exists|j: int|
                    0 <= j < candles@.len() && #[trigger] round_volume_spec(candles_view(candles@)[j].volume)
                        == #[trigger] r@[i].volume,
            forall|i: int|
                1 <= i < r.len() ==> 8 * r@[i - 1].close - 4 <= 10 * #[trigger] r@[i].close <= 12 * r@[i - 1].close
                    + 5,
    {
        let ghost s = candles_view(candles@);
        let sorted = sort_dedup(&candles, false);
        let ghost o = candles_view(sorted@);
        assert(o == sort_dedup_spec(s, false));
        proof {
            law_sort_dedup_ordered(s, false);
            assert forall|i: int| 0 <= i < o.len() implies volume_roundable(#[trigger] o[i]) by {
                assert(o[i] == s[kept_positions(s, false)[i]]);
            }
        }
        let seps: Vec<char> = vec!['-', '_', '/', ':'];
        assert(seps@ == symbol_separators());
        let n = sorted.len();
        let mut out: Vec<Candle> = Vec::new();
        let mut i: usize = 0;
        while i < n
            invariant
                n == sorted.len(),
                o == candles_view(sorted@),
                forall|k: int| 0 <= k < o.len() ==> volume_roundable(#[trigger] o[k]),
                seps@ == symbol_separators(),
                0 <= i <= n,
                candles_view(out@) == standardize_run(o.take(i as int)),
                forall|k: int| 0 <= k < out.len() ==> #[trigger] out@[k].close > 0,
            decreases n - i,
        {
            let c = &sorted[i];
            assert(c@ == o[i as int]);
            let prev: Option<i64> = if out.len() > 0 {
                Some(out[out.len() - 1].close)
            } else {
                None
            };
            proof {
                assert(o.take(i as int + 1).drop_last() =~= o.take(i as int));
                assert(o.take(i as int + 1).last() == o[i as int]);
                if out.len() > 0 {
                    assert(candles_view(out@)[out.len() - 1] == out@[out.len() - 1]@);
                    assert(prev == Some(standardize_run(o.take(i as int)).last().close));
                }
            }
            let mut open = c.open;
            let mut high = c.high;
            let mut low = c.low;
            let mut close = c.close;
            match prev {
                Some(p) => {
                    assert(p > 0);
                    if close <= 0 {
                        open = p;
                        high = p;
                        low = p;
                        close = p;
                    }
                    let up = (close as i128 - p as i128) * 5 > p as i128;
                    let down = (p as i128 - close as i128) * 5 > p as i128;
                    if up || down {
                        let nc = if up {
                            assert(scale_tenths(p, 12) <= close) by (nonlinear_arith)
                                requires
                                    (close - p) * 5 > p,
                                    p > 0,
                            ;
                            scaled_tenths(p, 12, close)
                        } else {
                            assert(scale_tenths(p, 8) <= p) by (nonlinear_arith)
                                requires
                                    p > 0,
                            ;
                            scaled_tenths(p, 8, p)
                        };
                        close = nc;
                        if high < nc {
                            high = nc;
                        }
                        if low > nc {
                            low = nc;
                        }
                    }
                },
                None => {},
            }
            let keep = match prev {
                Some(_) => true,
                None => c.close > 0,
            };
            if keep {
                let upper = to_upper(c.symbol.as_str());
                let symbol = remove_chars(upper.as_str(), &seps);
                let interval = to_lower(c.interval.as_str());
                let volume = round_volume(c.volume);
                let bar = Candle { timestamp: c.timestamp, open, high, low, close, volume, symbol, interval };
                assert(bar@ == standardize_bar(o[i as int], prev));
                let ghost before = candles_view(out@);
                out.push(bar);
                proof {
                    assert(candles_view(out@) =~= before.push(bar@));
                    assert(candles_view(out@) =~= standardize_run(o.take(i as int + 1)));
                    assert(bar.close > 0) by {
                        match prev {
                            Some(p) => {},
                            None => {},
                        }
                    }
                }
            } else {
                proof {
                    assert(standardize_run(o.take(i as int + 1)) =~= standardize_run(o.take(i as int)));
                }
            }
            i = i + 1;
        }
        proof {
            assert(o.take(n as int) =~= o);
            lemma_leading_unusable(o);
            let f = leading_unusable(o) as int;
            lemma_standardize_run_shape(o, f);
            assert forall|a: int, b: int| 0 <= a < b < out.len() implies out@[a].timestamp < out@[b].timestamp by {
                assert(candles_view(out@)[a] == out@[a]@);
                assert(candles_view(out@)[b] == out@[b]@);
                assert(standardize_run(o)[a].timestamp == o[f + a].timestamp);
                assert(standardize_run(o)[b].timestamp == o[f + b].timestamp);
                assert(o[f + a].timestamp < o[f + b].timestamp);
            }
            assert forall|k: int| 0 <= k < out.len() implies #[trigger] out@[k].timestamp == o[f + k].timestamp by {
                assert(candles_view(out@)[k] == out@[k]@);
                assert(standardize_run(o)[k].timestamp == o[f + k].timestamp);
            }
            assert forall|k: int| 0 <= k < out.len() implies #[trigger] out@[k].symbol@ == without_chars(
                uppercase(o[f + k].symbol),
                symbol_separators(),
            ) by {
                assert(candles_view(out@)[k] == out@[k]@);
                assert(standardize_run(o)[k].symbol == without_chars(uppercase(o[f + k].symbol), symbol_separators()));
            }
            assert forall|k: int| 0 <= k < out.len() implies #[trigger] out@[k].interval@ == lowercase(o[f + k].interval) by {
                assert(candles_view(out@)[k] == out@[k]@);
                assert(standardize_run(o)[k].interval == lowercase(o[f + k].interval));
            }
            assert forall|k: int| 0 <= k < out.len() implies exists|j: int|
                0 <= j < s.len() && #[trigger] round_volume_spec(s[j].volume) == #[trigger] out@[k].volume by {
                assert(candles_view(out@)[k] == out@[k]@);
                assert(standardize_run(o)[k].volume == round_volume_spec(o[f + k].volume));
                let j = kept_positions(s, false)[f + k];
                assert(o[f + k] == s[j]);
                assert(round_volume_spec(s[j].volume) == out@[k].volume);
            }
            assert forall|k: int| 1 <= k < out.len() implies 8 * out@[k - 1].close - 4 <= 10 * #[trigger] out@[k].close
                <= 12 * out@[k - 1].close + 5 by {
                assert(candles_view(out@)[k] == out@[k]@);
                assert(candles_view(out@)[k - 1] == out@[k - 1]@);
                let sr = standardize_run(o);
                assert(8 * sr[k - 1].close - 4 <= 10 * sr[k].close <= 12 * sr[k - 1].close + 5);
            }
        }
        out
    }
}

} // verus!
