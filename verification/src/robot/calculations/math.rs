use vstd::prelude::*;

verus! {

/// Entry point of the numeric helpers.
pub struct Math;

impl Math {
    pub fn new() -> (r: Self) {
        Math
    }
}

} // verus!
