use vstd::prelude::*;

verus! {

/// Roles of the operators of the robot.
#[derive(Debug, Clone, Copy, PartialEq, Eq, Structural)]
pub enum UserRole {
    Admin,
    Trader,
    Monitor,
}

/// A rate-limit rule applied to a class of actions.
#[derive(Debug)]
pub struct RateLimitRule {
    pub limit_type: String,
    pub max_per_second: u32,
    pub applies_to: String,
}

} // verus!
