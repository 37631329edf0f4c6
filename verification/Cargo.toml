[package]
name = "transaction_pool"
version = "0.1.0"
edition = "2021"
publish = false

[dependencies]
hex = "=0.4.3"
bytes = "=1.12.1"
tokio = { version = "=1.54.1", default-features = false, features = ["sync"] }
parking_lot = "=0.12.5"
futures-util = "=0.3.34"
async-trait = "=0.1.92"
tracing = "=0.1.44"
thiserror = "=1.0.69"
alloy-rlp = "=0.3.16"
alloy-primitives = { version = "=1.7.3", features = ["getrandom"] }
serde = { version = "=1.0.229", features = ["derive"] }
auto_impl = "=1.4.0"
revm = { version = "=43.0.3", default-features = false, features = ["std"] }
alloy-network = { version = "=2.5.0", default-features = false }
alloy-rpc-types = { version = "=2.5.0", default-features = false, features = ["eth"] }
alloy-signer-local = { version = "=2.5.0", default-features = false, features = ["mnemonic"] }
