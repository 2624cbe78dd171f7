pub mod indicators;
pub mod math;
pub mod orchestrator;
