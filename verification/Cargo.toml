[package]
name = "glm4_moe_lite"
version = "0.1.0"
edition = "2021"
publish = false

[dependencies]
mlx-rs = { version = "0.32", default-features = false }
serde = { version = "=1.0.229", features = ["derive"] }
serde_json = "=1.0.154"
tracing = "=0.1.44"
