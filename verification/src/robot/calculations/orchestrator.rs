use vstd::prelude::*;

verus! {

/// Orchestrates the mathematical and technical-analysis engines.
#[derive(Debug, Default, Clone, Copy, PartialEq, Eq, Structural)]
pub struct CalculationEngine;

impl CalculationEngine {
    pub fn new() -> (r: Self) {
        CalculationEngine
    }
}

/// Binds a calculation engine to the calculator interface.
pub struct CalculationEngineAdapter {
    pub engine: CalculationEngine,
}

impl CalculationEngineAdapter {
    pub fn new(engine: CalculationEngine) -> (r: Self)
        ensures
            r.engine == engine,
    {
        CalculationEngineAdapter { engine }
    }
}

} // verus!
