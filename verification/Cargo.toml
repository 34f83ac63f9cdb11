[package]
name = "archive_relay"
version = "0.1.0"
edition = "2021"
publish = false

[dependencies]
anyhow = "=1.0.104"
async-compression = { version = "=0.4.51", features = ["tokio", "zstd"] }
base64 = "=0.22.1"
chrono = "=0.4.45"
clap = { version = "=4.6.7", features = ["derive"] }
config = { version = "=0.15.27", default-features = false, features = ["yaml"] }
env_logger = "=0.11.11"
http-body-util = "=0.1.5"
hyper = { version = "=1.12.0", features = ["http1", "server"] }
hyper-util = { version = "=0.1.21", features = ["tokio"] }
itertools = "=0.15.0"
log = "=0.4.34"
nostr-relay-builder = "=0.44.1"
nostr-sdk = "=0.44.1"
serde = { version = "=1.0.229", features = ["derive"] }
sha1 = "=0.10.7"
sled = "=0.34.7"
thousands = "=0.2.0"
tokio = { version = "=1.54.1", features = ["full"] }
tokio-util = { version = "=0.7.20", features = ["io"] }
