[package]
name = "echo_node"
version = "0.1.0"
edition = "2021"
publish = false

[dependencies]
anyhow = "1"
tokio = { version = "1", features = ["rt-multi-thread", "macros", "io-std", "io-util"] }

[dev-dependencies]
serde_json = "1"
