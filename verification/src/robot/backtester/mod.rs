pub mod backtest_engine;
pub mod edge_scan;
pub mod funding_carry;
pub mod backtest_scheduler;
pub mod xs_momentum;
pub mod walk_forward;
pub mod multi_tf_ab;
pub mod time_grid;
