pub mod advanced;
pub mod advanced_monitoring;
pub mod backtester;
pub mod binance_executor;
pub mod calculations;
pub mod config_helpers;
pub mod data_fetcher;
pub mod data_pipeline;
pub mod portfolio_manager;
pub mod security;
