[package]
name = "voice_proxy"
version = "0.1.0"
edition = "2021"
publish = false

[dependencies]
tokio = { version = "1", features = ["rt-multi-thread", "net", "time", "macros", "sync"] }
