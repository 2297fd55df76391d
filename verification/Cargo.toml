[package]
name = "cap_consensus"
version = "0.1.0"
edition = "2021"
publish = false

[dependencies]
rand = "=0.8.8"
tokio = { version = "=1.54.1", features = ["rt", "rt-multi-thread", "sync", "time", "macros"] }
serde = { version = "=1.0.229", features = ["derive"] }
thiserror = "=1.0.69"
