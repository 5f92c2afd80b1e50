[package]
name = "lite_rpc_core"
version = "0.1.0"
edition = "2021"
publish = false

[dependencies]
anyhow = "1"
async-trait = "0.1"
const_env = "0.1"
itertools = "0.10"
lazy_static = "1"
log = "0.4"
prometheus = { version = "0.13", default-features = false }
rand = "0.8"
rand_chacha = "0.3"
serde_json = "1"
solana-sdk = "=1.16.27"
solana-transaction-status = "=1.16.27"
tokio = { version = "1", features = ["fs", "rt", "sync", "time"] }
