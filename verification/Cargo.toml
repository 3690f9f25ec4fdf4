[package]
name = "fast_core"
version = "0.1.0"
edition = "2021"
publish = false

[dependencies]
ed25519-dalek = { version = "2", features = ["batch", "serde"] }
sha2 = "0.10"
hex = "0.4"
tokio = { version = "1", features = ["rt-multi-thread", "net", "sync", "time"] }
serde = { version = "1", features = ["derive"] }
serde_json = "1"
failure = "0.1"
structopt = "0.3"
log = "0.4"
env_logger = "0.11"
rand = "0.9"
futures = "0.3"

[dev-dependencies]
bincode = "1"
bcs = "0.1"
