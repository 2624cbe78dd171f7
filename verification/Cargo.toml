[package]
name = "memos_trading_core"
version = "0.1.0"
edition = "2021"
publish = false

[dependencies]
chrono = "0.4"
hmac = "0.12"
sha2 = "0.10"
serde = { version = "1", features = ["derive"] }
serde_json = "1"
log = "0.4"
rand = "0.8"
rayon = "1"
reqwest = { version = "0.12", features = ["json"] }
rusqlite = "0.31"
tokio = { version = "1", features = ["rt-multi-thread", "macros", "time", "sync"] }
tokio-tungstenite = "0.23"
futures-util = "0.3"
async-trait = "0.1"
