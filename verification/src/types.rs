use vstd::prelude::*;

verus! {

/// Number of price units in 1.0: prices are held in millionths, the precision the
/// normalizer standardizes prices to.
pub const PRICE_SCALE: i64 = 1_000_000;

/// Number of volume units in 1.0: volumes are held in thousandths.
pub const VOLUME_SCALE: i64 = 1_000;

/// Largest magnitude of a single bar's volume that the aggregation arithmetic
/// accepts (a day of one-minute bars still sums inside `i64`).
pub const VOLUME_CAP: i64 = 6_000_000_000_000_000;

/// One OHLCV bar. Prices are integer millionths, volume integer thousandths and the
/// timestamp is epoch milliseconds.
#[derive(Debug)]
pub struct Candle {
    pub timestamp: i64,
    pub open: i64,
    pub high: i64,
    pub low: i64,
    pub close: i64,
    pub volume: i64,
    pub symbol: String,
    pub interval: String,
}

/// Abstract view of a bar.
pub struct CandleView {
    pub timestamp: i64,
    pub open: i64,
    pub high: i64,
    pub low: i64,
    pub close: i64,
    pub volume: i64,
    pub symbol: Seq<char>,
    pub interval: Seq<char>,
}

impl View for Candle {
    type V = CandleView;

    open spec fn view(&self) -> CandleView {
        CandleView {
            timestamp: self.timestamp,
            open: self.open,
            high: self.high,
            low: self.low,
            close: self.close,
            volume: self.volume,
            symbol: self.symbol@,
            interval: self.interval@,
        }
    }
}

impl Clone for Candle {
    fn clone(&self) -> (r: Self)
        ensures
            r == *self,
    {
        Candle {
            timestamp: self.timestamp,
            open: self.open,
            high: self.high,
            low: self.low,
            close: self.close,
            volume: self.volume,
            symbol: self.symbol.clone(),
            interval: self.interval.clone(),
        }
    }
}

/// The bars of a slice as views.
pub open spec fn candles_view(s: Seq<Candle>) -> Seq<CandleView> {
    s.map_values(|c: Candle| c@)
}

/// The bar's volume lies within the aggregation bound.
pub open spec fn volume_bounded(c: CandleView) -> bool {
    -VOLUME_CAP <= c.volume <= VOLUME_CAP
}

/// Trading signal.
#[derive(Debug, Clone, Copy, PartialEq, Eq, Structural)]
pub enum Signal {
    Buy,
    Sell,
    Hold,
}

} // verus!
