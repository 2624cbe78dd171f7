use vstd::prelude::*;
use vstd::string::StringExecFns;
use crate::robot::data_fetcher::websocket::{ohlcv_error, validate_ohlcv};
use crate::robot::data_pipeline::time_order::{law_time_sorted_ordered, time_sort, time_sorted};
use crate::types::{Candle, CandleView, candles_view};

verus! {

/// One bar as read from a provider's reply, before any check: a field is `None`
/// where the reply lacked it or it could not be read. The timestamp is epoch
/// milliseconds, prices are millionths and the volume thousandths.
#[derive(Debug, Clone, Copy, PartialEq, Eq, Structural)]
pub struct RawBar {
    pub timestamp: Option<i64>,
    pub open: Option<i64>,
    pub high: Option<i64>,
    pub low: Option<i64>,
    pub close: Option<i64>,
    pub volume: Option<i64>,
}

/// The volume a bar is given: the one read, or zero where the reply has none.
pub open spec fn raw_volume(b: RawBar) -> i64 {
    match b.volume {
        Some(v) => v,
        None => 0,
    }
}

/// The bar a raw row becomes: it needs a time and all four prices, and its values
/// must pass `ohlcv_error`; a missing volume counts as zero.
pub open spec fn raw_bar_candle(b: RawBar, symbol: Seq<char>, interval: Seq<char>) -> Option<CandleView> {
    match (b.timestamp, b.open, b.high, b.low, b.close) {
        (Some(t), Some(o), Some(h), Some(l), Some(c)) => {
            if ohlcv_error(o, h, l, c, raw_volume(b)) is None {
                Some(CandleView {
                    timestamp: t,
                    open: o,
                    high: h,
                    low: l,
                    close: c,
                    volume: raw_volume(b),
                    symbol,
                    interval,
                })
            } else {
                None
            }
        },
        _ => None,
    }
}

/// The bars of the usable rows, in row order.
pub open spec fn usable_candles(rows: Seq<RawBar>, symbol: Seq<char>, interval: Seq<char>) -> Seq<CandleView>
    decreases rows.len(),
{
    if rows.len() == 0 {
        Seq::empty()
    } else {
        let prev = usable_candles(rows.drop_last(), symbol, interval);
        match raw_bar_candle(rows.last(), symbol, interval) {
            Some(c) => prev.push(c),
            None => prev,
        }
    }
}

/// Every bar taken from a reply passes the OHLCV check, carries the given symbol
/// and interval, and has a row of the reply with its time and prices.
pub proof fn law_usable_candles_checked(rows: Seq<RawBar>, symbol: Seq<char>, interval: Seq<char>)
    ensures
        usable_candles(rows, symbol, interval).len() <= rows.len(),
        forall|i: int| 0 <= i < usable_candles(rows, symbol, interval).len() ==> {
            let c = #[trigger] usable_candles(rows, symbol, interval)[i];
            &&& ohlcv_error(c.open, c.high, c.low, c.close, c.volume) is None
            &&& c.symbol == symbol
            &&& c.interval == interval
            &&& exists|k: int| 0 <= k < rows.len() && #[trigger] raw_bar_candle(rows[k], symbol, interval) == Some(c)
        },
    decreases rows.len(),
{
    if rows.len() > 0 {
        let front = rows.drop_last();
        law_usable_candles_checked(front, symbol, interval);
        let u = usable_candles(rows, symbol, interval);
        let u0 = usable_candles(front, symbol, interval);
        assert forall|i: int| 0 <= i < u.len() implies {
            let c = #[trigger] u[i];
            &&& ohlcv_error(c.open, c.high, c.low, c.close, c.volume) is None
            &&& c.symbol == symbol
            &&& c.interval == interval
            &&& exists|k: int| 0 <= k < rows.len() && #[trigger] raw_bar_candle(rows[k], symbol, interval) == Some(c)
        } by {
            if i < u0.len() {
                assert(u[i] == u0[i]);
                let c = u0[i];
                let k = choose|k: int| 0 <= k < front.len() && #[trigger] raw_bar_candle(front[k], symbol, interval) == Some(c);
                assert(rows[k] == front[k]);
            } else {
                assert(raw_bar_candle(rows[rows.len() - 1], symbol, interval) == Some(u[i]));
            }
        }
    }
}

/// The bar of one raw row, if it is usable.
pub fn raw_bar_to_candle(b: &RawBar, symbol: &str, interval: &str) -> (r: Option<Candle>)
    ensures
        match r {
            Some(c) => raw_bar_candle(*b, symbol@, interval@) == Some(c@),
            None => raw_bar_candle(*b, symbol@, interval@) is None,
        },
{
    match (b.timestamp, b.open, b.high, b.low, b.close) {
        (Some(t), Some(o), Some(h), Some(l), Some(c)) => {
            let v = match b.volume {
                Some(v) => v,
                None => 0,
            };
            if validate_ohlcv(o, h, l, c, v).is_err() {
                return None;
            }
            Some(Candle {
                timestamp: t,
                open: o,
                high: h,
                low: l,
                close: c,
                volume: v,
                symbol: String::from_str(symbol),
                interval: String::from_str(interval),
            })
        },
        _ => None,
    }
}

/// The bars of the usable rows, in row order: a row without a time or without one
/// of the four prices, or whose values `validate_ohlcv` rejects, is skipped.
pub fn usable_bars(rows: &Vec<RawBar>, symbol: &str, interval: &str) -> (r: Vec<Candle>)
    ensures
        candles_view(r@) == usable_candles(rows@, symbol@, interval@),
{
    let mut out: Vec<Candle> = Vec::new();
    let mut k: usize = 0;
    while k < rows.len()
        invariant
            0 <= k <= rows.len(),
            candles_view(out@) == usable_candles(rows@.take(k as int), symbol@, interval@),
        decreases rows.len() - k,
    {
        let got = raw_bar_to_candle(&rows[k], symbol, interval);
        proof {
            assert(rows@.take(k as int + 1).drop_last() =~= rows@.take(k as int));
            assert(rows@.take(k as int + 1).last() == rows@[k as int]);
        }
        match got {
            Some(c) => {
                let ghost prev = out@;
                out.push(c);
                assert(candles_view(out@) =~= candles_view(prev).push(c@));
            },
            None => {},
        }
        k = k + 1;
    }
    assert(rows@.take(rows@.len() as int) =~= rows@);
    out
}

/// A provider's rows as bars: the usable rows (see `usable_bars`), stably sorted by
/// time so the oldest bar comes first.
pub fn assemble_bars(rows: &Vec<RawBar>, symbol: &str, interval: &str) -> (r: Vec<Candle>)
    ensures
        candles_view(r@) == time_sorted(usable_candles(rows@, symbol@, interval@)),
        r@.len() == usable_candles(rows@, symbol@, interval@).len(),
        forall|i: int, j: int| 0 <= i < j < r@.len() ==> r@[i].timestamp <= r@[j].timestamp,
{
    let bars = usable_bars(rows, symbol, interval);
    let r = time_sort(bars);
    proof {
        law_time_sorted_ordered(usable_candles(rows@, symbol@, interval@));
        assert forall|i: int, j: int| 0 <= i < j < r@.len() implies r@[i].timestamp <= r@[j].timestamp by {
            assert(candles_view(r@)[i] == r@[i]@);
            assert(candles_view(r@)[j] == r@[j]@);
        }
    }
    r
}

/// The latest `limit` bars of an oldest-first series: all of them when there are
/// no more than `limit`.
pub fn keep_latest(candles: Vec<Candle>, limit: usize) -> (r: Vec<Candle>)
    ensures
        r@ == (if candles@.len() > limit { candles@.skip(candles@.len() - limit) } else { candles@ }),
{
    let mut all = candles;
    if all.len() > limit {
        let at = all.len() - limit;
        let tail = all.split_off(at);
        tail
    } else {
        all
    }
}

} // verus!
