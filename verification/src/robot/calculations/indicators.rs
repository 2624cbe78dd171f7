use vstd::prelude::*;
use vstd::string::StringExecFns;

verus! {

/// Version tag of the indicator engine.
pub open spec fn indicator_engine_version() -> Seq<char> {
    "1.0.0"@
}

/// Indicator engine; it carries the version of its formulas.
pub struct IndicatorEngine {
    version: String,
}

impl IndicatorEngine {
    /// The version of the engine.
    pub closed spec fn version_view(&self) -> Seq<char> {
        self.version@
    }

    pub fn new() -> (r: Self)
        ensures
            r.version_view() == indicator_engine_version(),
    {
        IndicatorEngine { version: String::from_str("1.0.0") }
    }

    /// The engine's version, `"1.0.0"`.
    pub fn version(&self) -> (r: &str)
        ensures
            r@ == self.version_view(),
    {
        self.version.as_str()
    }
}

impl Default for IndicatorEngine {
    fn default() -> (r: Self)
        ensures
            r.version_view() == indicator_engine_version(),
    {
        IndicatorEngine::new()
    }
}

} // verus!
