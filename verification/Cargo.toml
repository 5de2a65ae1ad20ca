[package]
name = "payments_engine"
version = "0.1.0"
edition = "2021"
publish = false

[dependencies]
dashmap = "*"
rust_decimal = "*"
csv-async = "*"
tokio = { version = "*", features = ["rt-multi-thread", "macros", "sync", "fs", "io-util"] }
tokio-util = { version = "*", features = ["compat"] }
futures-util = "*"
clap = { version = "*", features = ["derive"] }
serde = { version = "*", features = ["derive"] }
tracing = "*"
tracing-subscriber = "*"
