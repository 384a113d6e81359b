[package]
name = "macos_candles"
version = "0.1.0"
edition = "2021"
publish = false

[dependencies]
serde = { version = "1", features = ["derive"] }
rusqlite = { version = "0.31", features = ["bundled"] }
sysinfo = "0.30"
chrono = { version = "0.4", default-features = false, features = ["clock"] }
tokio = { version = "1", features = ["time", "rt", "macros"] }
