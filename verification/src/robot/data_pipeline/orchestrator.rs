use vstd::prelude::*;
use crate::text::str_equals;
use crate::types::{Candle, CandleView, VOLUME_CAP, candles_view, volume_bounded};
use super::cache::{CandleCache, bars_after};
use super::normalizer::{DataNormalizer, round_volume_spec, standardizable, standardize_run};
use super::synth::{CandleAcc, CandleSynth, acc_step, emitted_upto, upper_minutes};
use super::time_order::sort_dedup_spec;
use super::validator::{DataValidator, ohlc_error};

verus! {

/// The data pipeline: standardize, validate, cache and synthesize upper intervals.
pub struct DataPipeline {
    pub cache: CandleCache,
    pub synth: CandleSynth,
}

/// Higher timeframe used as trend context for a base interval: `1m`/`5m` use
/// `1h`, `15m`/`30m`/`1h` use `4h`, everything else `1d`.
pub open spec fn htf_interval_spec(interval: Seq<char>) -> Seq<char> {
    if interval == "1m"@ || interval == "5m"@ {
        "1h"@
    } else if interval == "15m"@ || interval == "30m"@ || interval == "1h"@ {
        "4h"@
    } else {
        "1d"@
    }
}

/// The accumulators after one bar.
pub open spec fn accs_after(accs: Seq<Option<CandleAcc>>, c: CandleView) -> Seq<Option<CandleAcc>> {
    Seq::new(6, |k: int| acc_step(accs[k], c, upper_minutes(k)))
}

/// The accumulators after a run of bars.
pub open spec fn accs_after_run(accs: Seq<Option<CandleAcc>>, cs: Seq<CandleView>) -> Seq<Option<CandleAcc>>
    decreases cs.len(),
{
    if cs.len() == 0 {
        accs
    } else {
        accs_after(accs_after_run(accs, cs.drop_last()), cs.last())
    }
}

/// The upper-interval bars completed by a run of bars, in order.
pub open spec fn emitted_run(accs: Seq<Option<CandleAcc>>, cs: Seq<CandleView>, symbol: Seq<char>) -> Seq<CandleView>
    decreases cs.len(),
{
    if cs.len() == 0 {
        Seq::empty()
    } else {
        emitted_run(accs, cs.drop_last(), symbol) + emitted_upto(
            accs_after_run(accs, cs.drop_last()),
            cs.last(),
            symbol,
            6,
        )
    }
}

/// The bars of `s` that pass the OHLC rules, in order.
pub open spec fn ohlc_valid_only(s: Seq<CandleView>) -> Seq<CandleView>
    decreases s.len(),
{
    if s.len() == 0 {
        s
    } else if ohlc_error(s.last()) is None {
        ohlc_valid_only(s.drop_last()).push(s.last())
    } else {
        ohlc_valid_only(s.drop_last())
    }
}

/// The standardized bars of a tick that pass the OHLC rules.
pub open spec fn accepted_bars(incoming: Seq<CandleView>) -> Seq<CandleView> {
    ohlc_valid_only(standardize_run(sort_dedup_spec(incoming, false)))
}

/// Volumes small enough for standardization and synthesis.
pub open spec fn tick_volumes_ok(s: Seq<CandleView>) -> bool {
    forall|i: int| 0 <= i < s.len() ==> -(i64::MAX - 5) <= #[trigger] s[i].volume <= VOLUME_CAP - 5
}

impl DataPipeline {
    /// Consistency of the cache and the synthesizer.
    pub open spec fn wf(&self) -> bool {
        self.cache.wf() && self.synth.wf()
    }

    /// A pipeline caching at most `max_size` bars per key and synthesizing for
    /// `symbol`.
    pub fn new(max_size: usize, symbol: &str) -> (r: Self)
        ensures
            r.wf(),
            r.cache.capacity() == max_size,
            forall|k: Seq<char>| #[trigger] r.cache.bars(k) == Seq::<CandleView>::empty(),
            r.synth.symbol_view() == symbol@,
            r.synth.accs() == Seq::new(6, |k: int| None::<CandleAcc>),
    {
        DataPipeline { cache: CandleCache::new(max_size), synth: CandleSynth::new(symbol) }
    }

    /// Higher timeframe used as trend context for a base interval.
    pub fn get_htf_interval(interval: &str) -> (r: &'static str)
        ensures
            r@ == htf_interval_spec(interval@),
    {
        if str_equals(interval, "1m") || str_equals(interval, "5m") {
            "1h"
        } else if str_equals(interval, "15m") || str_equals(interval, "30m") || str_equals(interval, "1h") {
            "4h"
        } else {
            "1d"
        }
    }

    /// Runs one tick of one-minute bars through the pipeline: standardizes them
    /// (`process_and_standardize`), then each bar that passes the OHLC rules is
    /// cached and fed to the synthesizer. Returns the upper-interval bars completed,
    /// in order.
    pub fn process_tick(&mut self, incoming_1m: Vec<Candle>) -> (r: Vec<Candle>)
        requires
            old(self).wf(),
            standardizable(candles_view(incoming_1m@)),
            tick_volumes_ok(candles_view(incoming_1m@)),
        ensures
            final(self).wf(),
            final(self).cache.capacity() == old(self).cache.capacity(),
            forall|k: Seq<char>| #[trigger] final(self).cache.bars(k) == bars_after(
                old(self).cache.bars(k),
                accepted_bars(candles_view(incoming_1m@)),
                k,
                old(self).cache.capacity(),
            ),
            final(self).synth.symbol_view() == old(self).synth.symbol_view(),
            final(self).synth.accs() == accs_after_run(old(self).synth.accs(), accepted_bars(candles_view(incoming_1m@))),
            candles_view(r@) == emitted_run(
                old(self).synth.accs(),
                accepted_bars(candles_view(incoming_1m@)),
                old(self).synth.symbol_view(),
            ),
    {
        let ghost inc = candles_view(incoming_1m@);
        let ghost start_cache = self.cache;
        let ghost start_accs = self.synth.accs();
        let ghost sym = self.synth.symbol_view();
        let refined = DataNormalizer::process_and_standardize(incoming_1m);
        let ghost rs = candles_view(refined@);
        proof {
            assert forall|k: int| 0 <= k < rs.len() implies -(i64::MAX - 5) <= #[trigger] rs[k].volume <= VOLUME_CAP by {
                assert(rs[k] == refined@[k]@);
                let j = choose|j: int| 0 <= j < inc.len() && #[trigger] round_volume_spec(inc[j].volume) == refined@[k].volume;
                assert(-(i64::MAX - 5) <= inc[j].volume <= VOLUME_CAP - 5);
            }
        }
        let mut newly_formed: Vec<Candle> = Vec::new();
        let n = refined.len();
        let mut i: usize = 0;
        while i < n
            invariant
                n == refined.len(),
                rs == candles_view(refined@),
                forall|k: int| 0 <= k < rs.len() ==> -(i64::MAX - 5) <= #[trigger] rs[k].volume <= VOLUME_CAP,
                0 <= i <= n,
                self.wf(),
                self.cache.capacity() == start_cache.capacity(),
                forall|k: Seq<char>| #[trigger] self.cache.bars(k) == bars_after(
                    start_cache.bars(k),
                    ohlc_valid_only(rs.take(i as int)),
                    k,
                    start_cache.capacity(),
                ),
                self.synth.symbol_view() == sym,
                self.synth.accs() == accs_after_run(start_accs, ohlc_valid_only(rs.take(i as int))),
                candles_view(newly_formed@) == emitted_run(
                    start_accs,
                    ohlc_valid_only(rs.take(i as int)),
                    sym,
                ),
            decreases n - i,
        {
            let candle = &refined[i];
            let ghost prefix = rs.take(i as int);
            let ghost next = rs.take(i as int + 1);
            proof {
                assert(next.drop_last() =~= prefix);
                assert(next.last() == rs[i as int]);
                assert(candle@ == rs[i as int]);
            }
            if DataValidator::validate_ohlc(candle).is_ok() {
                let ghost fp = ohlc_valid_only(prefix);
                assert(ohlc_valid_only(next) == fp.push(rs[i as int]));
                let ghost accs0 = self.synth.accs();
                let single = vec![candle.clone()];
                assert(candles_view(single@) =~= seq![rs[i as int]]);
                let ghost cache0 = self.cache;
                self.cache.push_bulk(single);
                proof {
                    assert forall|k: Seq<char>| #[trigger] self.cache.bars(k) == bars_after(
                        start_cache.bars(k),
                        fp.push(rs[i as int]),
                        k,
                        start_cache.capacity(),
                    ) by {
                        assert(cache0.bars(k) == bars_after(start_cache.bars(k), fp, k, start_cache.capacity()));
                        assert(seq![rs[i as int]].drop_last() =~= Seq::<CandleView>::empty());
                        assert(fp.push(rs[i as int]).drop_last() =~= fp);
                        assert(bars_after(cache0.bars(k), Seq::<CandleView>::empty(), k, start_cache.capacity()) == cache0.bars(k));
                    }
                    assert(volume_bounded(candle@));
                }
                let formed = self.synth.push_1m(candle);
                let ghost before = candles_view(newly_formed@);
                let mut formed = formed;
                newly_formed.append(&mut formed);
                proof {
                    assert(fp.push(rs[i as int]).drop_last() =~= fp);
                    assert(self.synth.accs() =~= accs_after(accs0, rs[i as int]));
                    assert(candles_view(newly_formed@) =~= before + emitted_upto(accs0, rs[i as int], sym, 6));
                }
            } else {
                assert(ohlc_valid_only(next) == ohlc_valid_only(prefix));
            }
            i = i + 1;
        }
        proof {
            assert(rs.take(n as int) =~= rs);
        }
        newly_formed
    }

    /// Standardization alone (`process_and_standardize` on a copy).
    pub fn clean_only(candles: &Vec<Candle>) -> (r: Vec<Candle>)
        requires
            standardizable(candles_view(candles@)),
        ensures
            candles_view(r@) == standardize_run(sort_dedup_spec(candles_view(candles@), false)),
    {
        let copy = candles.clone();
        assert(candles_view(copy@) =~= candles_view(candles@));
        DataNormalizer::process_and_standardize(copy)
    }
}

} // verus!
