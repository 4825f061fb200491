[package]
name = "filesync"
version = "0.1.0"
edition = "2021"
publish = false

[dependencies]
seahash = "*"
flate2 = "*"
serde = { version = "*", features = ["derive"] }
ron = "*"
chrono = "*"
tokio = { version = "*", features = ["rt-multi-thread", "macros", "sync", "net", "fs", "io-util"] }
axum = { version = "*", features = ["ws"] }
futures-util = "*"
