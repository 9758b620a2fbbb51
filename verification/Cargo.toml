[package]
name = "knot_nm_dns_update"
version = "0.1.0"
edition = "2021"
publish = false

[dependencies]
anyhow = "1"
base64 = "0.22"
clap = { version = "4", features = ["derive"] }
env_logger = "0.11"
http-body-util = "0.1"
hyper = { version = "1", features = ["client", "http1"] }
hyper-util = { version = "0.1", features = ["client", "client-legacy", "http1", "tokio"] }
hyperlocal = "0.9"
log = "0.4"
resolv-conf = "0.7"
serde_json = "1"
sha3 = "0.10"
tokio = { version = "1", features = ["rt-multi-thread"] }
