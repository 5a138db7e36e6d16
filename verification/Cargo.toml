[package]
name = "mefrpd"
version = "0.1.0"
edition = "2021"
publish = false

[dependencies]
anyhow = "1"
async-tungstenite = { version = "*", features = ["tokio-runtime"] }
clap = { version = "4", features = ["derive"] }
futures-channel = { version = "0.3", features = ["sink"] }
futures-util = { version = "0.3", features = ["sink"] }
log = "0.4"
nanoid = "*"
once_cell = "1"
pretty_env_logger = "*"
reserve-port = "*"
rustyline = "*"
serde = { version = "1", features = ["derive"] }
serde_json = "1"
tokio = { version = "1", features = ["full"] }
