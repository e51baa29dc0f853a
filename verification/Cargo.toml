[package]
name = "kupo_proxy"
version = "0.1.0"
edition = "2021"
publish = false

[dependencies]
regex = "1"
pingora = { version = "*", default-features = false, features = ["proxy"] }
async-trait = "0.1"
bytes = "1"
serde = { version = "1", features = ["derive"] }
serde_json = "1"
tracing = "0.1"
tokio = { version = "1", features = ["rt-multi-thread", "time", "sync", "macros"] }
