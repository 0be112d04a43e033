[package]
name = "vd_stream"
version = "0.1.0"
edition = "2021"
publish = false

[dependencies]
anyhow = "*"
tokio = { version = "*", features = ["net", "io-util", "rt", "rt-multi-thread", "macros", "sync"] }
tracing = "*"
