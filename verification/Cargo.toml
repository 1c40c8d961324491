[package]
name = "beyond_blue"
version = "0.1.0"
edition = "2021"
publish = false

[dependencies]
libp2p = { version = "0.53", features = ["tokio", "tcp", "dns", "noise", "yamux", "relay", "dcutr", "gossipsub", "identify", "ping", "macros"] }
tokio = { version = "1", features = ["full"] }
futures = "0.3"
futures-timer = "3"
async-stream = "0.3"
actix-web = { version = "4", default-features = false, features = ["macros"] }
clap = { version = "4", features = ["derive"] }
env_logger = { version = "0.9", default-features = false }
log = "0.4"
url = "2"
serde = { version = "1", features = ["derive"] }
serde_json = "1"
rand_core = { version = "0.6", features = ["getrandom"] }
