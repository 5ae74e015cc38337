[package]
name = "guigu"
version = "0.1.0"
edition = "2021"
publish = false

[dependencies]
async-trait = "0.1"
fs2 = "0.4"
futures = "0.3"
schemars = "0.8"
serde = { version = "1", features = ["derive", "rc"] }
serde_json = "1"
thiserror = "1"
tokio = { version = "1", features = ["full"] }
tokio-util = { version = "0.7", features = ["rt"] }
tracing = "0.1"
