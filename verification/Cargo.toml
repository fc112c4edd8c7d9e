[package]
name = "primary"
version = "0.1.0"
edition = "2021"
publish = false

[dependencies]
anyhow = "1"
bcs = "=0.1.6"
bincode = "=1.3.3"
blsttc = "=8.0.2"
bytes = "1"
clap = "2"
env_logger = "0.10"
futures = "0.3"
log = "0.4"
serde = { version = "1", features = ["derive"] }
sha2 = "0.10"
threadpool = "1"
tokio = { version = "1", features = ["rt-multi-thread", "sync", "time", "macros", "net"] }
tokio-util = { version = "0.7", features = ["codec"] }

[dev-dependencies]
rand = "0.8"
