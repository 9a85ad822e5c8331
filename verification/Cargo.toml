[package]
name = "http_server"
version = "0.1.0"
edition = "2021"
publish = false

[dependencies]
anyhow = "1"
clap = { version = "4", features = ["derive"] }
ctor = "*"
flate2 = "1"
path-clean = "1"
thiserror = "1"
tracing = "0.1"
tracing-subscriber = "0.3"
