[package]
name = "wrk3"
version = "0.1.0"
edition = "2021"
publish = false

[dependencies]
anyhow = "1"
clap = { version = "=4.6.7", features = ["derive", "string"] }
crossbeam = "0.8"
form_urlencoded = "=1.2.2"
futures = "0.3"
http = "=1.5.0"
http-body-util = "0.1"
humantime = "=2.4.0"
hyper = { version = "1", features = ["client", "http1"] }
hyper-util = { version = "0.1", features = ["tokio"] }
indicatif = "0.18"
mlua = { version = "=0.12.2", features = ["lua54", "vendored", "async", "serde", "send"] }
rustc-hash = "=2.1.3"
serde = { version = "1", features = ["derive"] }
serde_json = "1"
thiserror = "2"
tokio = { version = "1", features = ["full"] }
tokio-stream = "0.1"
tracing = "0.1"
tracing-indicatif = "0.3"
tracing-subscriber = { version = "0.3", features = ["env-filter"] }
