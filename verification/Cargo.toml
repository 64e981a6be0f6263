[package]
name = "rutis_agent"
version = "0.1.0"
edition = "2021"
publish = false

[dependencies]
crossterm = { version = "=0.28.1", features = ["event-stream"] }
futures = { version = "=0.3.34", default-features = false, features = ["std", "async-await"] }
libloading = "=0.8.9"
ratatui = { version = "=0.29.0", default-features = false, features = ["crossterm"] }
rutui-core = { version = "=0.1.0", default-features = false }
rutui-prompt = { version = "=0.1.0", default-features = false }
rutui-theme = { version = "=0.1.0", default-features = false }
serde = { version = "=1.0.229", features = ["derive"] }
serde_json = "=1.0.154"
tokio = { version = "=1.54.1", features = ["rt-multi-thread", "macros", "sync", "time", "io-util", "net", "process"] }
tokio-util = "=0.7.20"
unicode-width = "=0.2.0"
