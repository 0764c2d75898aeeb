[package]
name = "rust_indexer"
version = "0.1.0"
edition = "2021"
publish = false

[dependencies]
anyhow = "1"
bincode = "1"
clap = { version = "4", features = ["derive"] }
futures = "0.3"
hex = "0.4"
once_cell = "1"
parking_lot = "0.12"
rayon = "1"
serde = { version = "1", features = ["derive"] }
serde_json = "1"
sha2 = "0.10"
tokio = { version = "1", features = ["full"] }
tracing = "0.1"
tracing-subscriber = { version = "0.3", features = ["env-filter"] }
