[package]
name = "xaynet"
version = "0.1.0"
edition = "2021"
publish = false

[dependencies]
ed25519-dalek = "*"
thiserror = "*"
futures = "*"
tower = "*"
tokio = { version = "*", features = ["sync", "time", "rt", "macros"] }
