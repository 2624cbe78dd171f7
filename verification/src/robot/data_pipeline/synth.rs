use vstd::prelude::*;
use crate::types::{Candle, CandleView, VOLUME_CAP, candles_view, volume_bounded};

verus! {

/// Bar intervals the synthesizer knows.
#[derive(Debug, Clone, Copy, PartialEq, Eq, Structural, Hash)]
pub enum Interval {
    M1,
    M5,
    M15,
    M30,
    H1,
    H4,
    D1,
}

impl Interval {
    pub open spec fn label_spec(self) -> Seq<char> {
        match self {
            Interval::M1 => "1m"@,
            Interval::M5 => "5m"@,
            Interval::M15 => "15m"@,
            Interval::M30 => "30m"@,
            Interval::H1 => "1h"@,
            Interval::H4 => "4h"@,
            Interval::D1 => "1d"@,
        }
    }

    pub open spec fn minutes_spec(self) -> int {
        match self {
            Interval::M1 => 1,
            Interval::M5 => 5,
            Interval::M15 => 15,
            Interval::M30 => 30,
            Interval::H1 => 60,
            Interval::H4 => 240,
            Interval::D1 => 1440,
        }
    }

    /// Interval token, e.g. `"15m"`.
    pub fn as_str(&self) -> (r: &'static str)
        ensures
            r@ == self.label_spec(),
    {
        match self {
            Interval::M1 => "1m",
            Interval::M5 => "5m",
            Interval::M15 => "15m",
            Interval::M30 => "30m",
            Interval::H1 => "1h",
            Interval::H4 => "4h",
            Interval::D1 => "1d",
        }
    }

    /// Length of the interval in minutes.
    pub fn minutes(&self) -> (r: usize)
        ensures
            r == self.minutes_spec(),
    {
        match self {
            Interval::M1 => 1,
            Interval::M5 => 5,
            Interval::M15 => 15,
            Interval::M30 => 30,
            Interval::H1 => 60,
            Interval::H4 => 240,
            Interval::D1 => 1440,
        }
    }

    /// The intervals synthesized from one-minute bars, shortest first.
    pub fn all_upper() -> (r: &'static [Interval])
        ensures
            r@ == upper_seq(),
    {
        let r: &'static [Interval] = &[Interval::M5, Interval::M15, Interval::M30, Interval::H1, Interval::H4, Interval::D1];
        assert(r@ =~= upper_seq());
        r
    }
}

/// The upper intervals, shortest first.
pub open spec fn upper_seq() -> Seq<Interval> {
    seq![Interval::M5, Interval::M15, Interval::M30, Interval::H1, Interval::H4, Interval::D1]
}

/// Minutes of the `k`-th upper interval.
pub open spec fn upper_minutes(k: int) -> int {
    upper_seq()[k].minutes_spec()
}

/// Running statistics of a bar being synthesized.
#[derive(Debug, Clone, Copy, PartialEq, Eq, Structural)]
pub struct CandleAcc {
    pub count: usize,
    pub open: i64,
    pub high: i64,
    pub low: i64,
    pub volume: i64,
    pub start_ts: i64,
}

pub open spec fn max_i64(a: i64, b: i64) -> i64 {
    if a >= b { a } else { b }
}

pub open spec fn min_i64(a: i64, b: i64) -> i64 {
    if a <= b { a } else { b }
}

/// Highest high of `s[lo..hi)` (`lo < hi`).
pub open spec fn win_high(s: Seq<CandleView>, lo: int, hi: int) -> i64
    decreases hi - lo,
{
    if hi - lo <= 1 {
        s[lo].high
    } else {
        max_i64(win_high(s, lo, hi - 1), s[hi - 1].high)
    }
}

/// Lowest low of `s[lo..hi)` (`lo < hi`).
pub open spec fn win_low(s: Seq<CandleView>, lo: int, hi: int) -> i64
    decreases hi - lo,
{
    if hi - lo <= 1 {
        s[lo].low
    } else {
        min_i64(win_low(s, lo, hi - 1), s[hi - 1].low)
    }
}

/// Total volume of `s[lo..hi)`.
pub open spec fn win_vol(s: Seq<CandleView>, lo: int, hi: int) -> int
    decreases hi - lo,
{
    if hi <= lo {
        0
    } else {
        win_vol(s, lo, hi - 1) + s[hi - 1].volume
    }
}

/// The accumulator after the bars `s[lo..hi)`; none when the window is empty.
pub open spec fn acc_window(s: Seq<CandleView>, lo: int, hi: int) -> Option<CandleAcc> {
    if hi <= lo {
        None
    } else {
        Some(
            CandleAcc {
                count: (hi - lo) as usize,
                open: s[lo].open,
                high: win_high(s, lo, hi),
                low: win_low(s, lo, hi),
                volume: win_vol(s, lo, hi) as i64,
                start_ts: s[lo].timestamp,
            },
        )
    }
}

/// The bar synthesized from `s[lo..hi)`.
pub open spec fn window_candle(s: Seq<CandleView>, lo: int, hi: int, symbol: Seq<char>, label: Seq<char>) -> CandleView {
    CandleView {
        timestamp: s[lo].timestamp,
        open: s[lo].open,
        high: win_high(s, lo, hi),
        low: win_low(s, lo, hi),
        close: s[hi - 1].close,
        volume: win_vol(s, lo, hi) as i64,
        symbol: symbol,
        interval: label,
    }
}

/// Accumulator of an interval of `m` minutes after one more bar `c`.
pub open spec fn acc_step(acc: Option<CandleAcc>, c: CandleView, m: int) -> Option<CandleAcc> {
    match acc {
        None => Some(
            CandleAcc { count: 1, open: c.open, high: c.high, low: c.low, volume: c.volume, start_ts: c.timestamp },
        ),
        Some(a) => if a.count + 1 >= m {
            None
        } else {
            Some(
                CandleAcc {
                    count: (a.count + 1) as usize,
                    open: a.open,
                    high: max_i64(a.high, c.high),
                    low: min_i64(a.low, c.low),
                    volume: (a.volume + c.volume) as i64,
                    start_ts: a.start_ts,
                },
            )
        },
    }
}

/// The bar emitted, if any, when `c` reaches an accumulator of `m` minutes.
pub open spec fn acc_emit(acc: Option<CandleAcc>, c: CandleView, m: int, symbol: Seq<char>, label: Seq<char>) -> Option<CandleView> {
    match acc {
        None => None,
        Some(a) => if a.count + 1 >= m {
            Some(
                CandleView {
                    timestamp: a.start_ts,
                    open: a.open,
                    high: max_i64(a.high, c.high),
                    low: min_i64(a.low, c.low),
                    close: c.close,
                    volume: (a.volume + c.volume) as i64,
                    symbol: symbol,
                    interval: label,
                },
            )
        } else {
            None
        },
    }
}

pub open spec fn opt_seq(o: Option<CandleView>) -> Seq<CandleView> {
    match o {
        Some(c) => seq![c],
        None => Seq::empty(),
    }
}

/// Bars emitted by the first `k` upper intervals when `c` is pushed.
pub open spec fn emitted_upto(accs: Seq<Option<CandleAcc>>, c: CandleView, symbol: Seq<char>, k: int) -> Seq<CandleView>
    decreases k,
{
    if k <= 0 {
        Seq::empty()
    } else {
        emitted_upto(accs, c, symbol, k - 1) + opt_seq(
            acc_emit(accs[k - 1], c, upper_minutes(k - 1), symbol, upper_seq()[k - 1].label_spec()),
        )
    }
}

/// The accumulator respects its interval: it holds fewer bars than the interval
/// and its volume stays within the per-bar bound times its count.
pub open spec fn acc_ok(acc: Option<CandleAcc>, m: int) -> bool {
    match acc {
        None => true,
        Some(a) => 1 <= a.count < m && -(a.count * VOLUME_CAP) <= a.volume <= a.count * VOLUME_CAP,
    }
}

/// Synthesizes the upper intervals from a stream of one-minute bars.
pub struct CandleSynth {
    pub symbol: String,
    accumulators: Vec<Option<CandleAcc>>,
}

impl CandleSynth {
    /// The accumulator of each upper interval, shortest first.
    pub closed spec fn accs(&self) -> Seq<Option<CandleAcc>> {
        self.accumulators@
    }

    /// The symbol the synthesized bars carry.
    pub closed spec fn symbol_view(&self) -> Seq<char> {
        self.symbol@
    }

    /// Well-formedness: one accumulator per upper interval, each within bounds.
    pub open spec fn wf(&self) -> bool {
        &&& self.accs().len() == 6
        &&& forall|k: int| 0 <= k < 6 ==> acc_ok(#[trigger] self.accs()[k], upper_minutes(k))
    }

    /// A synthesizer for `symbol` with every accumulator empty.
    pub fn new(symbol: &str) -> (r: Self)
        ensures
            r.wf(),
            r.symbol_view() == symbol@,
            r.accs() == Seq::new(6, |k: int| None::<CandleAcc>),
    {
        let mut accumulators: Vec<Option<CandleAcc>> = Vec::new();
        let mut k: usize = 0;
        while k < 6
            invariant
                k <= 6,
                accumulators@ == Seq::new(k as nat, |j: int| None::<CandleAcc>),
            decreases 6 - k,
        {
            accumulators.push(None);
            k += 1;
            assert(accumulators@ =~= Seq::new(k as nat, |j: int| None::<CandleAcc>));
        }
        CandleSynth { symbol: symbol.to_string(), accumulators }
    }

    /// Feeds one one-minute bar: every upper interval's accumulator takes the bar, and
    /// each interval that thereby completes emits its bar (shortest interval first)
    /// and starts over.
    pub fn push_1m(&mut self, candle: &Candle) -> (r: Vec<Candle>)
        requires
            old(self).wf(),
            volume_bounded(candle@),
        ensures
            final(self).wf(),
            final(self).symbol_view() == old(self).symbol_view(),
            forall|k: int| 0 <= k < 6 ==> #[trigger] final(self).accs()[k] == acc_step(old(self).accs()[k], candle@, upper_minutes(k)),
            candles_view(r@) == emitted_upto(old(self).accs(), candle@, old(self).symbol_view(), 6),
    {
        let uppers = Interval::all_upper();
        let mut emitted: Vec<Candle> = Vec::new();
        let mut k: usize = 0;
        while k < 6
            invariant
                k <= 6,
                uppers@ == upper_seq(),
                self.accumulators@.len() == 6,
                self.symbol == old(self).symbol,
                volume_bounded(candle@),
                forall|j: int| 0 <= j < 6 ==> acc_ok(#[trigger] old(self).accumulators@[j], upper_minutes(j)),
                forall|j: int| 0 <= j < k ==> #[trigger] self.accumulators@[j] == acc_step(old(self).accumulators@[j], candle@, upper_minutes(j)),
                forall|j: int| k <= j < 6 ==> #[trigger] self.accumulators@[j] == old(self).accumulators@[j],
                candles_view(emitted@) == emitted_upto(old(self).accumulators@, candle@, old(self).symbol@, k as int),
            decreases 6 - k,
        {
            let target = uppers[k];
            let m = target.minutes();
            assert(m == upper_minutes(k as int));
            let cur = self.accumulators[k];
            match cur {
                None => {
                    let fresh = CandleAcc {
                        count: 1,
                        open: candle.open,
                        high: candle.high,
                        low: candle.low,
                        volume: candle.volume,
                        start_ts: candle.timestamp,
                    };
                    self.accumulators.set(k, Some(fresh));
                    assert(candles_view(emitted@) =~= emitted_upto(old(self).accumulators@, candle@, old(self).symbol@, k + 1));
                },
                Some(acc) => {
                    assert(acc_ok(old(self).accumulators@[k as int], upper_minutes(k as int)));
                    assert(acc.count <= 1439) by {
                        assert(upper_minutes(k as int) <= 1440);
                    }
                    assert(acc.volume + candle.volume <= 1440 * VOLUME_CAP) by (nonlinear_arith)
                        requires
                            acc.volume <= acc.count * VOLUME_CAP,
                            acc.count <= 1439,
                            candle.volume <= VOLUME_CAP,
                    ;
                    assert(acc.volume + candle.volume >= -1440 * VOLUME_CAP) by (nonlinear_arith)
                        requires
                            acc.volume >= -(acc.count * VOLUME_CAP),
                            acc.count <= 1439,
                            candle.volume >= -VOLUME_CAP,
                    ;
                    let count = acc.count + 1;
                    let high = if acc.high >= candle.high { acc.high } else { candle.high };
                    let low = if acc.low <= candle.low { acc.low } else { candle.low };
                    let volume = acc.volume + candle.volume;
                    if count >= m {
                        let out = Candle {
                            timestamp: acc.start_ts,
                            open: acc.open,
                            high,
                            low,
                            close: candle.close,
                            volume,
                            symbol: self.symbol.clone(),
                            interval: target.as_str().to_string(),
                        };
                        let ghost before = emitted@;
                        emitted.push(out);
                        self.accumulators.set(k, None);
                        assert(candles_view(emitted@) =~= candles_view(before).push(out@));
                        assert(candles_view(emitted@) =~= emitted_upto(old(self).accumulators@, candle@, old(self).symbol@, k + 1));
                    } else {
                        let next = CandleAcc { count, open: acc.open, high, low, volume, start_ts: acc.start_ts };
                        self.accumulators.set(k, Some(next));
                        assert(candles_view(emitted@) =~= emitted_upto(old(self).accumulators@, candle@, old(self).symbol@, k + 1));
                    }
                },
            }
            k += 1;
        }
        proof {
            assert forall|j: int| 0 <= j < 6 implies acc_ok(#[trigger] self.accs()[j], upper_minutes(j)) by {
                let a = old(self).accumulators@[j];
                let m = upper_minutes(j);
                assert(m >= 5 && m <= 1440);
                match a {
                    None => {},
                    Some(x) => {
                        if x.count + 1 < m {
                            assert(-((x.count + 1) * VOLUME_CAP) <= x.volume + candle.volume <= (x.count + 1) * VOLUME_CAP) by (nonlinear_arith)
                                requires
                                    -(x.count * VOLUME_CAP) <= x.volume <= x.count * VOLUME_CAP,
                                    -VOLUME_CAP <= candle.volume <= VOLUME_CAP,
                            ;
                        }
                    },
                }
            }
        }
        emitted
    }
}

proof fn lemma_win_low(s: Seq<CandleView>, lo: int, hi: int)
    requires
        0 <= lo < hi <= s.len(),
    ensures
        forall|i: int| lo <= i < hi ==> win_low(s, lo, hi) <= #[trigger] s[i].low,
        exists|i: int| lo <= i < hi && win_low(s, lo, hi) == #[trigger] s[i].low,
    decreases hi - lo,
{
    if hi - lo > 1 {
        lemma_win_low(s, lo, hi - 1);
        let i0 = choose|i: int| lo <= i < hi - 1 && win_low(s, lo, hi - 1) == #[trigger] s[i].low;
        if win_low(s, lo, hi - 1) <= s[hi - 1].low {
            assert(win_low(s, lo, hi) == s[i0].low);
        } else {
            assert(win_low(s, lo, hi) == s[hi - 1].low);
        }
    } else {
        assert(win_low(s, lo, hi) == s[lo].low);
    }
}

proof fn lemma_win_high(s: Seq<CandleView>, lo: int, hi: int)
    requires
        0 <= lo < hi <= s.len(),
    ensures
        forall|i: int| lo <= i < hi ==> win_high(s, lo, hi) >= #[trigger] s[i].high,
        exists|i: int| lo <= i < hi && win_high(s, lo, hi) == #[trigger] s[i].high,
    decreases hi - lo,
{
    if hi - lo > 1 {
        lemma_win_high(s, lo, hi - 1);
        let i0 = choose|i: int| lo <= i < hi - 1 && win_high(s, lo, hi - 1) == #[trigger] s[i].high;
        if win_high(s, lo, hi - 1) >= s[hi - 1].high {
            assert(win_high(s, lo, hi) == s[i0].high);
        } else {
            assert(win_high(s, lo, hi) == s[hi - 1].high);
        }
    } else {
        assert(win_high(s, lo, hi) == s[lo].high);
    }
}

/// Window law: the bar synthesized from the one-minute bars `s[lo..hi)` starts at
/// the first bar's time and open, ends at the last bar's close, and its low and
/// high are the lowest low and highest high of all the bars of the window, the
/// closing one included.
pub proof fn law_window_candle(s: Seq<CandleView>, lo: int, hi: int, symbol: Seq<char>, label: Seq<char>)
    requires
        0 <= lo < hi <= s.len(),
    ensures
        ({
            let w = window_candle(s, lo, hi, symbol, label);
            &&& w.timestamp == s[lo].timestamp
            &&& w.open == s[lo].open
            &&& w.close == s[hi - 1].close
            &&& forall|i: int| lo <= i < hi ==> w.low <= #[trigger] s[i].low && w.high >= s[i].high
            &&& exists|i: int| lo <= i < hi && w.low == #[trigger] s[i].low
            &&& exists|i: int| lo <= i < hi && w.high == #[trigger] s[i].high
            &&& w.symbol == symbol
            &&& w.interval == label
        }),
{
    lemma_win_low(s, lo, hi);
    lemma_win_high(s, lo, hi);
}

/// Accumulation law: when bar `c` reaches an accumulator, the bar it emits (if the
/// interval completes) or the accumulator it leaves keeps the accumulator's start
/// time and open, and its low and high are the lower and the higher of the
/// accumulator's and `c`'s; an emitted bar closes at `c`'s close. A fresh
/// accumulator starts from `c` alone.
pub proof fn law_acc_push(acc: Option<CandleAcc>, c: CandleView, m: int, symbol: Seq<char>, label: Seq<char>)
    ensures
        acc is None ==> acc_emit(acc, c, m, symbol, label) is None && acc_step(acc, c, m) == Some(
            CandleAcc { count: 1, open: c.open, high: c.high, low: c.low, volume: c.volume, start_ts: c.timestamp },
        ),
        acc_emit(acc, c, m, symbol, label) matches Some(b) ==> {
            let a = acc->0;
            &&& acc_step(acc, c, m) is None
            &&& b.timestamp == a.start_ts && b.open == a.open && b.close == c.close
            &&& b.low <= a.low && b.low <= c.low && (b.low == a.low || b.low == c.low)
            &&& b.high >= a.high && b.high >= c.high && (b.high == a.high || b.high == c.high)
            &&& b.symbol == symbol && b.interval == label
        },
        acc is Some && acc_emit(acc, c, m, symbol, label) is None ==> (acc_step(acc, c, m) matches Some(n) && {
            let a = acc->0;
            &&& n.start_ts == a.start_ts && n.open == a.open
            &&& n.low <= a.low && n.low <= c.low && (n.low == a.low || n.low == c.low)
            &&& n.high >= a.high && n.high >= c.high && (n.high == a.high || n.high == c.high)
        }),
{
}

} // verus!
