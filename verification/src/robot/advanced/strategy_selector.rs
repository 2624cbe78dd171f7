use vstd::prelude::*;
use crate::types::Candle;

verus! {

/// Chooses the strategy to run for a series.
pub struct StrategySelector;

impl StrategySelector {
    pub fn new() -> (r: Self) {
        StrategySelector
    }

    /// The strategy to run: the moving-average crossover, whatever the bars and
    /// parameters.
    pub fn select_best<P>(&self, candles: &[Candle], params: &P) -> (r: &'static str)
        ensures
            r@ == "MA_CROSSOVER"@,
    {
        "MA_CROSSOVER"
    }
}

} // verus!
