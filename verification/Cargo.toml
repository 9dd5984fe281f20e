[package]
name = "json_ecs_sub"
version = "0.1.0"
edition = "2021"
publish = false

[dependencies]
bevy = { version = "0.10", default-features = false }
bevy-tokio-tasks = "0.10"
clap = { version = "4", features = ["derive"] }
crossbeam-channel = "0.5"
futures-util = "0.3"
serde = { version = "1", features = ["derive"] }
serde_json = { version = "1", features = ["raw_value"] }
tokio = { version = "1", features = ["full"] }
tokio-tungstenite = "0.18"
