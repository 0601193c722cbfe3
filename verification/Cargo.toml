[package]
name = "op_sdm"
version = "0.1.0"
edition = "2021"
publish = false

[dependencies]
alloy-rlp = "=0.3.17"
alloy-primitives = "=1.7.3"
alloy-consensus = "=1.8.3"
alloy-eips = "=1.8.3"
alloy-rpc-types-eth = "=1.8.3"
alloy-serde = "=1.8.3"
serde = { version = "=1.0.229", features = ["derive"] }
serde_json = "=1.0.154"
thiserror = "=2.0.21"
