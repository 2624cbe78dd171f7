//! Trading-core library: the data pipeline, configuration presets, scheduling and
//! book-selection logic of an autonomous trading robot, with their contracts.

pub mod calendar;
pub mod clock;
pub mod text;
pub mod types;
pub mod robot;
