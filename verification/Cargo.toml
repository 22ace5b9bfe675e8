[package]
name = "trade_aggregation"
version = "0.1.0"
edition = "2021"

[dependencies]
csv = "1"
serde = { version = "1", features = ["derive"] }

[dev-dependencies]
round = "0.1"
