[package]
name = "backtide_core"
version = "0.1.0"
edition = "2021"
publish = false

[dependencies]
chrono = "*"
chrono-tz = "*"
itertools = "*"
indexmap = "*"
serde = { version = "*", features = ["derive"] }
serde_json = "*"
tokio = { version = "*", features = ["rt-multi-thread", "macros", "net", "time", "sync"] }
tokio-tungstenite = { version = "*", features = ["rustls-tls-webpki-roots"] }
futures = "*"
async-trait = "*"
thiserror = "*"
tracing = "*"
tracing-subscriber = "*"
duckdb = "*"
