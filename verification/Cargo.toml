[package]
name = "disttest"
version = "0.1.0"
edition = "2021"
publish = false

[dependencies]
rand = "0.9"
serde_json = "1"
tokio = { version = "1", features = ["macros", "rt", "time"] }
