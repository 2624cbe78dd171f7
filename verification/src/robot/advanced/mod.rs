pub mod combined_strategy;
pub mod strategy_selector;
