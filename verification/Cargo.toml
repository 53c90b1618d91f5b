[package]
name = "ljx"
version = "0.1.0"
edition = "2021"
publish = false

[dependencies]
chrono = "=0.4.45"
clap = { version = "=4.6.7", features = ["derive"] }
colored = "=3.1.1"
crossterm = "=0.29.0"
libloading = "=0.9.0"
opentelemetry-proto = { version = "0.31", default-features = false, features = ["gen-tonic-messages", "logs", "metrics", "trace"] }
prost = "0.14"
ratatui = "=0.30.2"
regex = "=1.13.1"
serde = { version = "=1.0.229", features = ["derive"] }
serde_json = "=1.0.154"
shlex = "=1.3.0"
xxhash-rust = { version = "=0.8.19", features = ["xxh3"] }
