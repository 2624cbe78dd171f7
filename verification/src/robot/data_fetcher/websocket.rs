use vstd::prelude::*;

verus! {

/// Why a bar's raw values were rejected.
#[derive(Debug, Clone, Copy, PartialEq, Eq, Structural)]
pub enum OhlcvError {
    /// A price is zero or negative.
    NonPositivePrice,
    /// The high is not the largest or the low not the smallest price.
    InconsistentRange,
    /// The volume is negative.
    NegativeVolume,
}

/// The first rule raw bar values break: positive prices, then a consistent
/// high/low range, then a non-negative volume.
pub open spec fn ohlcv_error(open: i64, high: i64, low: i64, close: i64, volume: i64) -> Option<OhlcvError> {
    if open <= 0 || high <= 0 || low <= 0 || close <= 0 {
        Some(OhlcvError::NonPositivePrice)
    } else if high < low || high < open || high < close || low > open || low > close {
        Some(OhlcvError::InconsistentRange)
    } else if volume < 0 {
        Some(OhlcvError::NegativeVolume)
    } else {
        None
    }
}

/// Integrity check of raw bar values (prices in millionths, volume in
/// thousandths) before they become a bar.
pub fn validate_ohlcv(open: i64, high: i64, low: i64, close: i64, volume: i64) -> (r: Result<(), OhlcvError>)
    ensures
        r == (match ohlcv_error(open, high, low, close, volume) {
            Some(e) => Err(e),
            None => Ok(()),
        }),
{
    if open <= 0 || high <= 0 || low <= 0 || close <= 0 {
        return Err(OhlcvError::NonPositivePrice);
    }
    if high < low || high < open || high < close || low > open || low > close {
        return Err(OhlcvError::InconsistentRange);
    }
    if volume < 0 {
        return Err(OhlcvError::NegativeVolume);
    }
    Ok(())
}

} // verus!
