use vstd::prelude::*;
use crate::text::str_equals;
use crate::types::{Candle, CandleView, candles_view};

verus! {

/// Structural checks on bars and bar series.
pub struct DataValidator;

/// Why a bar or a series was rejected.
#[derive(Debug, Clone, Copy, PartialEq, Eq, Structural)]
pub enum ValidationError {
    /// The high is below the open, the close or the low.
    HighBelowBody,
    /// The low is above the open, the close or the high.
    LowAboveBody,
    /// A negative price.
    NegativePrice,
    /// A negative volume.
    NegativeVolume,
    /// No bars to validate.
    EmptySeries,
    /// The bar at this position has another symbol or interval than the first bar.
    MixedSeries(usize),
    /// The bar at this position is not later than the bar before it.
    TimeOrder(usize),
}

/// The first rule a bar breaks, in the order high, low, negative price, negative
/// volume.
pub open spec fn ohlc_error(c: CandleView) -> Option<ValidationError> {
    if c.high < c.open || c.high < c.close || c.high < c.low {
        Some(ValidationError::HighBelowBody)
    } else if c.low > c.open || c.low > c.close || c.low > c.high {
        Some(ValidationError::LowAboveBody)
    } else if c.open < 0 || c.high < 0 || c.low < 0 || c.close < 0 {
        Some(ValidationError::NegativePrice)
    } else if c.volume < 0 {
        Some(ValidationError::NegativeVolume)
    } else {
        None
    }
}

/// The rule that bar `i` of a series breaks: its own OHLC rules, then symbol and
/// interval equal to the first bar's, then a timestamp after the previous bar's.
pub open spec fn bar_error(s: Seq<CandleView>, i: int) -> Option<ValidationError> {
    match ohlc_error(s[i]) {
        Some(e) => Some(e),
        None => if s[i].symbol != s[0].symbol || s[i].interval != s[0].interval {
            Some(ValidationError::MixedSeries(i as usize))
        } else if i > 0 && s[i].timestamp <= s[i - 1].timestamp {
            Some(ValidationError::TimeOrder(i as usize))
        } else {
            None
        },
    }
}

/// The first rule broken by the bars from position `i` on.
pub open spec fn series_error_from(s: Seq<CandleView>, i: int) -> Option<ValidationError>
    decreases s.len() - i,
{
    if i < 0 || i >= s.len() {
        None
    } else {
        match bar_error(s, i) {
            Some(e) => Some(e),
            None => series_error_from(s, i + 1),
        }
    }
}

/// The first rule a series breaks; an empty series is an error of its own.
pub open spec fn series_error(s: Seq<CandleView>) -> Option<ValidationError> {
    if s.len() == 0 {
        Some(ValidationError::EmptySeries)
    } else {
        series_error_from(s, 0)
    }
}

/// `Ok` for no error, else the error.
pub open spec fn as_result(e: Option<ValidationError>) -> Result<(), ValidationError> {
    match e {
        Some(e) => Err(e),
        None => Ok(()),
    }
}

proof fn lemma_series_error_split(s: Seq<CandleView>, i: int)
    requires
        0 <= i <= s.len(),
        forall|k: int| 0 <= k < i ==> bar_error(s, k) is None,
    ensures
        series_error_from(s, 0) == series_error_from(s, i),
    decreases i,
{
    if i > 0 {
        lemma_series_error_split(s, i - 1);
        assert(bar_error(s, i - 1) is None);
    }
}

/// Bar validity law: a bar passes exactly when its high is at least the open, the
/// close and the low, its low is at most the open and the close, no price is
/// negative and the volume is not negative. A high below the open or the close is
/// reported as `HighBelowBody`, whatever else is wrong.
pub proof fn law_ohlc_valid(c: CandleView)
    ensures
        ohlc_error(c) is None <==> (c.high >= c.open && c.high >= c.close && c.high >= c.low && c.low <= c.open
            && c.low <= c.close && c.open >= 0 && c.high >= 0 && c.low >= 0 && c.close >= 0 && c.volume >= 0),
        (c.high < c.open || c.high < c.close) ==> ohlc_error(c) == Some(ValidationError::HighBelowBody),
        c.high >= c.open && c.high >= c.close && c.high >= c.low && (c.low > c.open || c.low > c.close)
            ==> ohlc_error(c) == Some(ValidationError::LowAboveBody),
{
}

/// Series validity law: a series passes only when it is not empty, every bar is a
/// valid bar, all bars share the first bar's symbol and interval, and timestamps
/// strictly increase.
pub proof fn law_series_valid(s: Seq<CandleView>)
    ensures
        series_error(s) is None ==> {
            &&& s.len() > 0
            &&& forall|i: int| 0 <= i < s.len() ==> #[trigger] ohlc_error(s[i]) is None
            &&& forall|i: int| 0 <= i < s.len() ==> #[trigger] s[i].symbol == s[0].symbol && s[i].interval == s[0].interval
            &&& forall|i: int| 0 < i < s.len() ==> #[trigger] s[i - 1].timestamp < s[i].timestamp
        },
{
    if series_error(s) is None {
        assert forall|i: int| 0 <= i < s.len() implies #[trigger] bar_error(s, i) is None by {
            lemma_series_error_none_at(s, 0, i);
        }
        assert forall|i: int| 0 <= i < s.len() implies #[trigger] ohlc_error(s[i]) is None by {
            assert(bar_error(s, i) is None);
        }
        assert forall|i: int| 0 <= i < s.len() implies #[trigger] s[i].symbol == s[0].symbol && s[i].interval == s[0].interval by {
            assert(bar_error(s, i) is None);
        }
        assert forall|i: int| 0 < i < s.len() implies #[trigger] s[i - 1].timestamp < s[i].timestamp by {
            assert(bar_error(s, i) is None);
        }
    }
}

proof fn lemma_series_error_none_at(s: Seq<CandleView>, from: int, i: int)
    requires
        0 <= from <= i < s.len(),
        series_error_from(s, from) is None,
    ensures
        bar_error(s, i) is None,
    decreases i - from,
{
    if from < i {
        lemma_series_error_none_at(s, from + 1, i);
    }
}

impl DataValidator {
    /// Checks the physical rules of one bar: the high is the largest and the low the
    /// smallest of the four prices, no price is negative, the volume is not negative.
    pub fn validate_ohlc(candle: &Candle) -> (r: Result<(), ValidationError>)
        ensures
            r == as_result(ohlc_error(candle@)),
    {
        if candle.high < candle.open || candle.high < candle.close || candle.high < candle.low {
            return Err(ValidationError::HighBelowBody);
        }
        if candle.low > candle.open || candle.low > candle.close || candle.low > candle.high {
            return Err(ValidationError::LowAboveBody);
        }
        if candle.open < 0 || candle.high < 0 || candle.low < 0 || candle.close < 0 {
            return Err(ValidationError::NegativePrice);
        }
        if candle.volume < 0 {
            return Err(ValidationError::NegativeVolume);
        }
        Ok(())
    }

    /// Checks a series: not empty, every bar valid, one symbol and interval
    /// throughout, strictly increasing timestamps. The first broken rule, scanning
    /// bar by bar, is reported.
    pub fn validate_sequence(candles: &[Candle]) -> (r: Result<(), ValidationError>)
        ensures
            r == as_result(series_error(candles_view(candles@))),
    {
        let ghost s = candles_view(candles@);
        if candles.len() == 0 {
            return Err(ValidationError::EmptySeries);
        }
        let first = &candles[0];
        let mut i: usize = 0;
        while i < candles.len()
            invariant
                s == candles_view(candles@),
                s.len() == candles.len(),
                s.len() > 0,
                first@ == s[0],
                0 <= i <= candles.len(),
                forall|k: int| 0 <= k < i ==> bar_error(s, k) is None,
            decreases candles.len() - i,
        {
            let curr = &candles[i];
            assert(curr@ == s[i as int]);
            proof {
                lemma_series_error_split(s, i as int);
            }
            match Self::validate_ohlc(curr) {
                Err(e) => {
                    return Err(e);
                },
                Ok(()) => {},
            }
            if !str_equals(curr.symbol.as_str(), first.symbol.as_str()) || !str_equals(
                curr.interval.as_str(),
                first.interval.as_str(),
            ) {
                return Err(ValidationError::MixedSeries(i));
            }
            if i > 0 {
                let prev = &candles[i - 1];
                assert(prev@ == s[i - 1]);
                if curr.timestamp <= prev.timestamp {
                    return Err(ValidationError::TimeOrder(i));
                }
            }
            i = i + 1;
        }
        proof {
            lemma_series_error_split(s, s.len() as int);
        }
        Ok(())
    }
}

} // verus!
