[package]
name = "zkprover_bundler"
version = "0.1.0"
edition = "2021"
publish = false

[dependencies]
anyhow = "1"
dotenv = "0.15"
ethers = { version = "2.0", default-features = false }
futures = "0.3"
hyper = "0.14"
jsonrpsee = { version = "0.16", features = ["server", "macros"] }
lazy_static = "1"
serde = { version = "1", features = ["derive"] }
serde_json = "1"
tokio = { version = "1", features = ["full"] }
tokio-cron-scheduler = "0.9"
tower = "0.4"
tower-http = { version = "0.4", features = ["cors"] }
tracing = "0.1"
tracing-subscriber = "0.3"
