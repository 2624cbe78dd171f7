use vstd::prelude::*;

verus! {

/// A non-negative decimal quantity counted in hundredths (`150` stands for `1.50`).
#[derive(Debug, Clone, Copy, PartialEq, Eq, Structural)]
pub struct Hundredths(pub u32);

/// Trailing-stop settings of a position.
#[derive(Debug, Clone, Copy, PartialEq, Eq, Structural)]
pub struct TrailingStopConfig {
    /// Trailing distance in percent.
    pub trailing_pct: Hundredths,
    /// Minimum favourable move (basis points) before the stop trails.
    pub min_movement_bps: u32,
    pub enabled: bool,
}

/// Scale-in (adding to a winning position) settings.
#[derive(Debug, Clone, Copy, PartialEq, Eq, Structural)]
pub struct ScaleInConfig {
    pub enabled: bool,
    pub max_scalein_count: u32,
    /// Size of each add, percent of the initial position.
    pub scale_in_pct: Hundredths,
    /// How close (percent) price must come to the trigger level.
    pub trigger_proximity_pct: Hundredths,
}

/// Scale-out (partial profit taking) settings.
#[derive(Debug)]
pub struct ScaleOutConfig {
    pub enabled: bool,
    pub max_scaleout_count: u32,
    /// Share of the position closed at each target, percent.
    pub scaleout_pct: Hundredths,
    /// Profit targets, percent, in the order they are taken.
    pub profit_targets: Vec<Hundredths>,
}

} // verus!
