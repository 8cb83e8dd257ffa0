[package]
name = "depthbook"
version = "0.1.0"
edition = "2021"
publish = false

[dependencies]
async-trait = "0.1"
clap = { version = "4", features = ["derive"] }
config = { version = "0.14", default-features = false, features = ["toml"] }
env_logger = "0.11"
futures-util = "0.3"
log = "0.4"
rand = "0.8"
reqwest = { version = "0.12", default-features = false }
reqwest-middleware = "0.4"
reqwest-retry = "0.7"
serde = { version = "1", features = ["derive"] }
serde_json = "1"
tokio = { version = "1", features = ["rt-multi-thread", "macros", "sync", "net"] }
tokio-tungstenite = "0.24"
tungstenite = "0.24"
