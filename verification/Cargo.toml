[package]
name = "texcreate_repo"
version = "0.1.0"
edition = "2021"
publish = false

[dependencies]
reqwest = { version = "=0.13.5", default-features = false }
tokio = { version = "=1.53.2", features = ["fs", "io-util"] }
