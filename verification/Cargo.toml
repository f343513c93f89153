[package]
name = "printer_adapter"
version = "0.1.0"
edition = "2021"
publish = false

[dependencies]
tokio-serial = "*"
tokio = { version = "*", features = ["rt-multi-thread", "macros", "time", "io-util", "fs", "sync"] }
serde = { version = "*", features = ["derive"] }
thiserror = "*"
tracing = "*"
tracing-subscriber = "*"
dotenvy = "*"
async-trait = "*"
