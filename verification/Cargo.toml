[package]
name = "accesslm"
version = "0.1.0"
edition = "2021"
publish = false

[dependencies]
serde_json = "*"
libp2p = { version = "*", default-features = false, features = ["tokio", "tcp", "noise", "yamux", "mdns", "kad", "identify", "ping", "macros", "ed25519"] }
tokio = { version = "*", default-features = false, features = ["macros", "rt-multi-thread", "time"] }
futures = "*"
dirs = "*"
if-addrs = "*"
env_logger = "*"
