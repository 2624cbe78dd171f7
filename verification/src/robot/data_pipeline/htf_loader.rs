use vstd::prelude::*;
use crate::text::str_equals;
use crate::types::{Candle, CandleView, VOLUME_CAP, candles_view, volume_bounded};
use super::orchestrator::{DataPipeline, htf_interval_spec};
use super::synth::{CandleAcc, CandleSynth, acc_emit, acc_step, acc_window, emitted_upto, opt_seq, upper_minutes, upper_seq, win_vol, window_candle};

verus! {

/// Fewest higher-timeframe bars worth handing to the trend filter (its slow SMA
/// needs 30).
pub const HTF_MIN_REQUIRED: usize = 30;

/// Minutes of an interval token; 0 for an unknown token.
pub open spec fn interval_minutes_spec(intv: Seq<char>) -> usize {
    if intv == "1m"@ {
        1
    } else if intv == "5m"@ {
        5
    } else if intv == "15m"@ {
        15
    } else if intv == "30m"@ {
        30
    } else if intv == "1h"@ {
        60
    } else if intv == "4h"@ {
        240
    } else if intv == "1d"@ {
        1440
    } else {
        0
    }
}

/// Minutes of an interval token (`"1h"` is 60); 0 for an unknown token.
pub fn interval_minutes(intv: &str) -> (r: usize)
    ensures
        r == interval_minutes_spec(intv@),
{
    if str_equals(intv, "1m") {
        1
    } else if str_equals(intv, "5m") {
        5
    } else if str_equals(intv, "15m") {
        15
    } else if str_equals(intv, "30m") {
        30
    } else if str_equals(intv, "1h") {
        60
    } else if str_equals(intv, "4h") {
        240
    } else if str_equals(intv, "1d") {
        1440
    } else {
        0
    }
}

/// The bars of `s` whose interval is `label`, in order.
pub open spec fn filter_interval(s: Seq<CandleView>, label: Seq<char>) -> Seq<CandleView>
    decreases s.len(),
{
    if s.len() == 0 {
        s
    } else {
        filter_interval(s.drop_last(), label) + (if s.last().interval == label {
            seq![s.last()]
        } else {
            Seq::empty()
        })
    }
}

/// Position of the upper interval labelled `label`, or -1.
pub open spec fn upper_index(label: Seq<char>) -> int {
    if label == "5m"@ {
        0
    } else if label == "15m"@ {
        1
    } else if label == "30m"@ {
        2
    } else if label == "1h"@ {
        3
    } else if label == "4h"@ {
        4
    } else if label == "1d"@ {
        5
    } else {
        -1
    }
}

/// Every bar's volume lies within the aggregation bound.
pub open spec fn all_volumes_bounded(s: Seq<CandleView>) -> bool {
    forall|i: int| 0 <= i < s.len() ==> volume_bounded(#[trigger] s[i])
}

proof fn lemma_upper_labels()
    ensures
        forall|k: int| 0 <= k < 6 ==> upper_index(#[trigger] upper_seq()[k].label_spec()) == k,
{
    reveal_strlit("5m");
    reveal_strlit("15m");
    reveal_strlit("30m");
    reveal_strlit("1h");
    reveal_strlit("4h");
    reveal_strlit("1d");
    let l = seq!["5m"@, "15m"@, "30m"@, "1h"@, "4h"@, "1d"@];
    assert forall|a: int, b: int| 0 <= a < b < 6 implies l[a] != l[b] by {
        if l[a].len() == l[b].len() {
            if l[a].len() == 2 {
                assert(l[a][0] != l[b][0] || l[a][1] != l[b][1]);
            } else {
                assert(l[a][0] != l[b][0]);
            }
        }
    }
    assert(upper_index(upper_seq()[0].label_spec()) == 0);
    assert(upper_index(upper_seq()[1].label_spec()) == 1);
    assert(upper_index(upper_seq()[2].label_spec()) == 2);
    assert(upper_index(upper_seq()[3].label_spec()) == 3);
    assert(upper_index(upper_seq()[4].label_spec()) == 4);
    assert(upper_index(upper_seq()[5].label_spec()) == 5);
}

proof fn lemma_filter_interval_add(a: Seq<CandleView>, b: Seq<CandleView>, label: Seq<char>)
    ensures
        filter_interval(a + b, label) == filter_interval(a, label) + filter_interval(b, label),
    decreases b.len(),
{
    if b.len() == 0 {
        assert(a + b =~= a);
    } else {
        lemma_filter_interval_add(a, b.drop_last(), label);
        assert((a + b).drop_last() =~= a + b.drop_last());
        assert((a + b).last() == b.last());
    }
}

proof fn lemma_filter_emitted(accs: Seq<Option<CandleAcc>>, c: CandleView, sym: Seq<char>, kk: int, k: int)
    requires
        0 <= kk <= 6,
        0 <= k < 6,
    ensures
        filter_interval(emitted_upto(accs, c, sym, kk), upper_seq()[k].label_spec()) == (if k < kk {
            opt_seq(acc_emit(accs[k], c, upper_minutes(k), sym, upper_seq()[k].label_spec()))
        } else {
            Seq::<CandleView>::empty()
        }),
    decreases kk,
{
    let lab = upper_seq()[k].label_spec();
    if kk > 0 {
        lemma_filter_emitted(accs, c, sym, kk - 1, k);
        let e = opt_seq(acc_emit(accs[kk - 1], c, upper_minutes(kk - 1), sym, upper_seq()[kk - 1].label_spec()));
        lemma_filter_interval_add(emitted_upto(accs, c, sym, kk - 1), e, lab);
        lemma_upper_labels();
        assert(upper_index(upper_seq()[kk - 1].label_spec()) == kk - 1);
        assert(upper_index(lab) == k);
        if e.len() == 1 {
            assert(e.drop_last() =~= Seq::<CandleView>::empty());
            assert(filter_interval(Seq::<CandleView>::empty(), lab) =~= Seq::<CandleView>::empty());
            if kk - 1 == k {
                assert(filter_interval(e, lab) =~= e);
            } else {
                assert(upper_seq()[kk - 1].label_spec() != lab);
                assert(filter_interval(e, lab) =~= Seq::<CandleView>::empty());
            }
        } else {
            assert(e =~= Seq::<CandleView>::empty());
        }
        assert(filter_interval(emitted_upto(accs, c, sym, kk - 1), lab) + filter_interval(e, lab) =~= (if k < kk {
            opt_seq(acc_emit(accs[k], c, upper_minutes(k), sym, lab))
        } else {
            Seq::<CandleView>::empty()
        }));
    }
}

proof fn lemma_win_vol_bounded(s: Seq<CandleView>, lo: int, hi: int)
    requires
        0 <= lo <= hi <= s.len(),
        all_volumes_bounded(s),
    ensures
        -((hi - lo) * VOLUME_CAP) <= win_vol(s, lo, hi) <= (hi - lo) * VOLUME_CAP,
    decreases hi - lo,
{
    if hi > lo {
        lemma_win_vol_bounded(s, lo, hi - 1);
        assert(volume_bounded(s[hi - 1]));
    }
}

proof fn lemma_acc_step_window(s: Seq<CandleView>, lo: int, t: int, m: int, sym: Seq<char>, lab: Seq<char>)
    requires
        0 <= lo <= t < s.len(),
        t - lo < m,
        5 <= m <= 1440,
        all_volumes_bounded(s),
    ensures
        acc_step(acc_window(s, lo, t), s[t], m) == (if t + 1 - lo >= m {
            None
        } else {
            acc_window(s, lo, t + 1)
        }),
        acc_emit(acc_window(s, lo, t), s[t], m, sym, lab) == (if t + 1 - lo >= m {
            Some(window_candle(s, lo, t + 1, sym, lab))
        } else {
            None
        }),
{
    lemma_win_vol_bounded(s, lo, t);
    lemma_win_vol_bounded(s, lo, t + 1);
    assert(-(1440 * VOLUME_CAP) <= win_vol(s, lo, t + 1) <= 1440 * VOLUME_CAP) by (nonlinear_arith)
        requires
            -((t + 1 - lo) * VOLUME_CAP) <= win_vol(s, lo, t + 1) <= (t + 1 - lo) * VOLUME_CAP,
            t + 1 - lo <= 1440,
    ;
    assert(-(1440 * VOLUME_CAP) <= win_vol(s, lo, t) <= 1440 * VOLUME_CAP) by (nonlinear_arith)
        requires
            -((t - lo) * VOLUME_CAP) <= win_vol(s, lo, t) <= (t - lo) * VOLUME_CAP,
            t - lo <= 1440,
    ;
    if t == lo {
        assert(win_vol(s, lo, t + 1) == s[t].volume);
    }
}

/// Synthesizes the one-minute bars `candles_1m` into the upper interval
/// `target_interval`, returning only the completed bars of that interval (in
/// order); an interval that is not an upper interval gives no bars.
pub fn aggregate_1m_to(candles_1m: &[Candle], target_interval: &str, symbol: &str) -> (r: Vec<Candle>)
    requires
        all_volumes_bounded(candles_view(candles_1m@)),
    ensures
        upper_index(target_interval@) < 0 ==> r@.len() == 0,
        upper_index(target_interval@) >= 0 ==> ({
            let k = upper_index(target_interval@);
            let m = upper_minutes(k);
            let s = candles_view(candles_1m@);
            candles_view(r@) == Seq::new(
                (s.len() as int / m) as nat,
                |j: int| window_candle(s, j * m, j * m + m, symbol@, target_interval@),
            )
        }),
{
    let ghost s = candles_view(candles_1m@);
    let ghost k = upper_index(target_interval@);
    if candles_1m.len() == 0 {
        proof {
            if k >= 0 {
                assert(s.len() as int / upper_minutes(k) == 0);
                assert(Seq::<Candle>::empty().map_values(|c: Candle| c@) =~= Seq::new(
                    0,
                    |j: int| window_candle(s, j * upper_minutes(k), j * upper_minutes(k) + upper_minutes(k), symbol@, target_interval@),
                ));
            }
        }
        return Vec::new();
    }
    let mut synth = CandleSynth::new(symbol);
    let mut out: Vec<Candle> = Vec::new();
    let n = candles_1m.len();
    let ghost mut los: Seq<int> = Seq::new(6, |j: int| 0int);
    let ghost mut q: int = 0;
    proof {
        lemma_upper_labels();
    }
    let mut t: usize = 0;
    while t < n
        invariant
            n == candles_1m@.len(),
            s == candles_view(candles_1m@),
            k == upper_index(target_interval@),
            -1 <= k < 6,
            all_volumes_bounded(s),
            t <= n,
            synth.wf(),
            synth.symbol_view() == symbol@,
            los.len() == 6,
            forall|j: int|
                0 <= j < 6 ==> {
                    &&& 0 <= #[trigger] los[j] <= t
                    &&& t - los[j] < upper_minutes(j)
                    &&& synth.accs()[j] == acc_window(s, los[j], t as int)
                },
            k < 0 ==> out@.len() == 0,
            k >= 0 ==> {
                &&& los[k] == q * upper_minutes(k)
                &&& q >= 0
                &&& candles_view(out@) == Seq::new(
                    q as nat,
                    |j: int| window_candle(s, j * upper_minutes(k), j * upper_minutes(k) + upper_minutes(k), symbol@, target_interval@),
                )
            },
        decreases n - t,
    {
        let c = &candles_1m[t];
        proof {
            assert(c@ == s[t as int]);
            assert(volume_bounded(s[t as int]));
        }
        let ghost accs_before = synth.accs();
        let emitted = synth.push_1m(c);
        let ghost ev = candles_view(emitted@);
        let ghost out_before = candles_view(out@);
        let mut i: usize = 0;
        while i < emitted.len()
            invariant
                i <= emitted@.len(),
                ev == candles_view(emitted@),
                candles_view(out@) == out_before + filter_interval(ev.take(i as int), target_interval@),
            decreases emitted@.len() - i,
        {
            let e = &emitted[i];
            assert(ev.take(i + 1).drop_last() =~= ev.take(i as int));
            assert(ev.take(i + 1).last() == ev[i as int]);
            assert(ev[i as int] == e@);
            if str_equals(e.interval.as_str(), target_interval) {
                let ce = e.clone();
                let ghost out_mid = out@;
                out.push(ce);
                assert(candles_view(out@) =~= candles_view(out_mid).push(ce@));
                assert(candles_view(out@) =~= out_before + filter_interval(ev.take(i + 1), target_interval@));
            } else {
                assert(candles_view(out@) =~= out_before + filter_interval(ev.take(i + 1), target_interval@));
            }
            i += 1;
        }
        proof {
            assert(ev.take(ev.len() as int) =~= ev);
            let new_los = Seq::new(
                6,
                |j: int| if t + 1 - los[j] >= upper_minutes(j) { (t + 1) as int } else { los[j] },
            );
            assert forall|j: int| 0 <= j < 6 implies {
                &&& 0 <= #[trigger] new_los[j] <= t + 1
                &&& t + 1 - new_los[j] < upper_minutes(j)
                &&& synth.accs()[j] == acc_window(s, new_los[j], t + 1)
            } by {
                assert(5 <= upper_minutes(j) <= 1440);
                lemma_acc_step_window(s, los[j], t as int, upper_minutes(j), symbol@, upper_seq()[j].label_spec());
            }
            if k >= 0 {
                let m = upper_minutes(k);
                assert(5 <= m <= 1440);
                lemma_filter_emitted(accs_before, s[t as int], symbol@, 6, k);
                lemma_acc_step_window(s, los[k], t as int, m, symbol@, target_interval@);
                assert(upper_seq()[k].label_spec() == target_interval@) by {
                    reveal_strlit("5m");
                    reveal_strlit("15m");
                    reveal_strlit("30m");
                    reveal_strlit("1h");
                    reveal_strlit("4h");
                    reveal_strlit("1d");
                }
                if t + 1 - los[k] >= m {
                    assert((q + 1) * m == q * m + m) by (nonlinear_arith);
                    assert(candles_view(out@) =~= Seq::new(
                        (q + 1) as nat,
                        |j: int| window_candle(s, j * m, j * m + m, symbol@, target_interval@),
                    ));
                    q = q + 1;
                } else {
                    assert(candles_view(out@) =~= Seq::new(
                        q as nat,
                        |j: int| window_candle(s, j * m, j * m + m, symbol@, target_interval@),
                    ));
                }
            } else {
                lemma_upper_labels();
                assert forall|j: int| 0 <= j < 6 implies upper_seq()[j].label_spec() != target_interval@ by {
                    assert(upper_index(upper_seq()[j].label_spec()) == j);
                }
                lemma_filter_none(accs_before, s[t as int], symbol@, 6, target_interval@);
            }
            los = new_los;
        }
        t += 1;
    }
    proof {
        if k >= 0 {
            let m = upper_minutes(k);
            assert(5 <= m);
            assert(n as int - q * m < m);
            assert(q == (n as int) / m) by {
                vstd::arithmetic::div_mod::lemma_fundamental_div_mod_converse(n as int, m, q, n as int - q * m);
            }
        }
    }
    out
}

proof fn lemma_filter_none(accs: Seq<Option<CandleAcc>>, c: CandleView, sym: Seq<char>, kk: int, label: Seq<char>)
    requires
        0 <= kk <= 6,
        forall|j: int| 0 <= j < 6 ==> upper_seq()[j].label_spec() != label,
    ensures
        filter_interval(emitted_upto(accs, c, sym, kk), label) == Seq::<CandleView>::empty(),
    decreases kk,
{
    if kk > 0 {
        lemma_filter_none(accs, c, sym, kk - 1, label);
        let e = opt_seq(acc_emit(accs[kk - 1], c, upper_minutes(kk - 1), sym, upper_seq()[kk - 1].label_spec()));
        lemma_filter_interval_add(emitted_upto(accs, c, sym, kk - 1), e, label);
        if e.len() == 1 {
            assert(e.drop_last() =~= Seq::<CandleView>::empty());
            assert(filter_interval(Seq::<CandleView>::empty(), label) =~= Seq::<CandleView>::empty());
            assert(filter_interval(e, label) =~= Seq::<CandleView>::empty());
        } else {
            assert(e =~= Seq::<CandleView>::empty());
        }
    }
}

/// Next step in loading higher-timeframe bars for a base interval.
pub enum HtfLoadStep {
    /// Read up to `limit` stored bars of `interval` for the symbol (most recent
    /// ones, oldest first), then continue with what came back.
    Read { interval: &'static str, limit: usize },
    /// Loading is over; these are the bars.
    Done(Vec<Candle>),
}

/// Bars the loader asks for: `min_required`, and at least `HTF_MIN_REQUIRED`.
pub open spec fn htf_need(min_required: usize) -> int {
    if min_required >= HTF_MIN_REQUIRED { min_required as int } else { HTF_MIN_REQUIRED as int }
}

/// A loading step by value: a read of `limit` bars of an interval, or the bars
/// the load ends with.
pub enum HtfPlan {
    Read(Seq<char>, int),
    Done(Seq<CandleView>),
}

/// The step `step` by value.
pub open spec fn plan_of(step: HtfLoadStep) -> HtfPlan {
    match step {
        HtfLoadStep::Read { interval, limit } => HtfPlan::Read(interval@, limit as int),
        HtfLoadStep::Done(v) => HtfPlan::Done(candles_view(v@)),
    }
}

/// A read's result by value (`None` for a failed read).
pub open spec fn read_view(read: Option<Vec<Candle>>) -> Option<Seq<CandleView>> {
    match read {
        Some(c) => Some(candles_view(c@)),
        None => None,
    }
}

/// First step of the load.
pub open spec fn htf_start_plan(base: Seq<char>, min_required: usize) -> HtfPlan {
    if htf_interval_spec(base) == base {
        HtfPlan::Done(Seq::empty())
    } else {
        HtfPlan::Read(
            htf_interval_spec(base),
            if htf_need(min_required) >= 50 {
                htf_need(min_required)
            } else {
                50
            },
        )
    }
}

/// Step after the higher-timeframe read.
pub open spec fn htf_after_htf_plan(base: Seq<char>, min_required: usize, read: Option<Seq<CandleView>>) -> HtfPlan {
    if read is Some && read->0.len() >= htf_need(min_required) {
        HtfPlan::Done(read->0)
    } else if base == "1m"@ {
        HtfPlan::Read("1m"@, (htf_need(min_required) + 1) * 60)
    } else {
        HtfPlan::Done(Seq::empty())
    }
}

/// Hourly bars synthesized from a one-minute read: one per full 60 bars.
pub open spec fn hourly_from(read: Option<Seq<CandleView>>, symbol: Seq<char>) -> Seq<CandleView> {
    match read {
        Some(c) => Seq::new((c.len() as int / 60) as nat, |j: int| window_candle(c, j * 60, j * 60 + 60, symbol, "1h"@)),
        None => Seq::empty(),
    }
}

/// The whole load, the three steps run in turn, with `db(interval, limit)` what a
/// read of `limit` bars of `interval` gives back.
pub open spec fn htf_load_spec(
    base: Seq<char>,
    min_required: usize,
    symbol: Seq<char>,
    db: spec_fn(Seq<char>, int) -> Option<Seq<CandleView>>,
) -> Seq<CandleView> {
    match htf_start_plan(base, min_required) {
        HtfPlan::Done(v) => v,
        HtfPlan::Read(iv, limit) => match htf_after_htf_plan(base, min_required, db(iv, limit)) {
            HtfPlan::Done(v) => v,
            HtfPlan::Read(iv2, limit2) => hourly_from(db(iv2, limit2), symbol),
        },
    }
}

/// Higher-timeframe load law: with `need = max(min_required, 30)` and `htf` the
/// base's higher timeframe, the load gives nothing when `htf` is the base itself;
/// the bars read for `htf` (at least 50 asked for) when there are `need` of them;
/// otherwise, for a one-minute base, the hourly bars synthesized from
/// `60 * (need + 1)` one-minute bars read, and nothing for any other base.
pub proof fn law_htf_load(
    base: Seq<char>,
    min_required: usize,
    symbol: Seq<char>,
    db: spec_fn(Seq<char>, int) -> Option<Seq<CandleView>>,
)
    ensures
        htf_load_spec(base, min_required, symbol, db) == ({
            let need = htf_need(min_required);
            let htf = htf_interval_spec(base);
            let first = db(htf, if need >= 50 { need } else { 50 });
            if htf == base {
                Seq::<CandleView>::empty()
            } else if first is Some && first->0.len() >= need {
                first->0
            } else if base == "1m"@ {
                hourly_from(db("1m"@, 60 * (need + 1)), symbol)
            } else {
                Seq::<CandleView>::empty()
            }
        }),
{
}

/// First step: nothing to load when the base interval is its own higher timeframe;
/// otherwise read the higher timeframe, at least 50 bars.
pub fn htf_load_start(base_interval: &str, min_required: usize) -> (r: HtfLoadStep)
    ensures
        plan_of(r) == htf_start_plan(base_interval@, min_required),
        htf_interval_spec(base_interval@) == base_interval@ ==> (r matches HtfLoadStep::Done(v) && v@.len() == 0),
        htf_interval_spec(base_interval@) != base_interval@ ==> (r matches HtfLoadStep::Read { interval, limit }
            && interval@ == htf_interval_spec(base_interval@) && limit == (if htf_need(min_required) >= 50 {
            htf_need(min_required)
        } else {
            50
        })),
{
    let htf = DataPipeline::get_htf_interval(base_interval);
    if str_equals(htf, base_interval) {
        let none: Vec<Candle> = Vec::new();
        assert(candles_view(none@) =~= Seq::<CandleView>::empty());
        return HtfLoadStep::Done(none);
    }
    let need = if min_required >= HTF_MIN_REQUIRED {
        min_required
    } else {
        HTF_MIN_REQUIRED
    };
    HtfLoadStep::Read { interval: htf, limit: if need >= 50 {
        need
    } else {
        50
    } }
}

/// Step after the higher-timeframe read (`None` for a failed read): enough bars
/// end the load with them; otherwise a one-minute base falls back to reading
/// `(need + 1) * 60` one-minute bars to synthesize hourly bars from; any other base
/// ends with no bars.
pub fn htf_after_htf_read(base_interval: &str, min_required: usize, read: Option<Vec<Candle>>) -> (r: HtfLoadStep)
    requires
        base_interval@ == "1m"@ ==> (htf_need(min_required) + 1) * 60 <= usize::MAX,
    ensures
        plan_of(r) == htf_after_htf_plan(base_interval@, min_required, read_view(read)),
        (read matches Some(c) && c@.len() >= htf_need(min_required)) ==> r == HtfLoadStep::Done(read->0),
        !(read matches Some(c) && c@.len() >= htf_need(min_required)) && base_interval@ == "1m"@ ==> (r matches HtfLoadStep::Read {
            interval,
            limit,
        } && interval@ == "1m"@ && limit == (htf_need(min_required) + 1) * 60),
        !(read matches Some(c) && c@.len() >= htf_need(min_required)) && base_interval@ != "1m"@ ==> (r matches HtfLoadStep::Done(v)
            && v@.len() == 0),
{
    let need = if min_required >= HTF_MIN_REQUIRED {
        min_required
    } else {
        HTF_MIN_REQUIRED
    };
    match read {
        Some(c) => {
            if c.len() >= need {
                return HtfLoadStep::Done(c);
            }
        },
        None => {},
    }
    if str_equals(base_interval, "1m") {
        let htf = DataPipeline::get_htf_interval(base_interval);
        proof {
            reveal_strlit("1m");
            reveal_strlit("5m");
            reveal_strlit("15m");
            reveal_strlit("30m");
            reveal_strlit("1h");
            assert("1h"@[1] != "1m"@[1]);
            assert("1h"@[0] != "5m"@[0]);
            assert("1h"@.len() != "15m"@.len());
            assert("1h"@.len() != "30m"@.len());
        }
        let target_mins = interval_minutes(htf);
        assert(target_mins == 60);
        assert(need * target_mins + target_mins == (htf_need(min_required) + 1) * 60);
        HtfLoadStep::Read { interval: "1m", limit: need * target_mins + target_mins }
    } else {
        let none: Vec<Candle> = Vec::new();
        assert(candles_view(none@) =~= Seq::<CandleView>::empty());
        HtfLoadStep::Done(none)
    }
}

/// Last step of the one-minute fallback: hourly bars synthesized from the bars read
/// (`None` for a failed read gives none).
pub fn htf_after_base_read(symbol: &str, read: Option<Vec<Candle>>) -> (r: Vec<Candle>)
    requires
        read matches Some(c) ==> all_volumes_bounded(candles_view(c@)),
    ensures
        candles_view(r@) == hourly_from(read_view(read), symbol@),
        read is None ==> r@.len() == 0,
        read matches Some(c) ==> candles_view(r@) == Seq::new(
            (c@.len() as int / 60) as nat,
            |j: int| window_candle(candles_view(c@), j * 60, j * 60 + 60, symbol@, "1h"@),
        ),
{
    match read {
        Some(c) => {
            proof {
                lemma_upper_labels();
                assert(upper_seq()[3].label_spec() == "1h"@);
            }
            assert(upper_index("1h"@) == 3);
            aggregate_1m_to(c.as_slice(), "1h", symbol)
        },
        None => Vec::new(),
    }
}

} // verus!
