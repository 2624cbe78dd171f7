pub mod alert_system;
pub mod health;
pub mod dashboard;
