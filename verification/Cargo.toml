[package]
name = "rhttp"
version = "0.1.0"
edition = "2021"
publish = false

[dependencies]
anyhow = "1"
bytes = "1"
clap = { version = "4", features = ["derive"] }
httpstatus = "*"
socket2 = "0.5"
thiserror = "1"
tokio = { version = "1", features = ["io-util", "macros", "net", "rt", "rt-multi-thread", "sync"] }
tracing = "0.1"
tracing-subscriber = "0.3"
