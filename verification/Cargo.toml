[package]
name = "evm_fork_cache"
version = "0.2.0"
edition = "2021"
publish = false

[dependencies]
alloy-eips = { version = "=1.8.3", default-features = false, features = ["std"] }
alloy-primitives = { version = "=1.7.3", default-features = false, features = ["std", "serde"] }
alloy-rlp = { version = "=0.3.17", default-features = false, features = ["std"] }
alloy-sol-types = { version = "=1.7.3", default-features = false, features = ["std"] }
bincode = "1"
futures = { version = "0.3", default-features = false, features = ["std"] }
revm = { version = "=34.0.0", default-features = false, features = ["std", "optional_eip3607", "optional_no_base_fee", "optional_balance_check"] }
serde = { version = "1", features = ["derive"] }
serde_json = "1"
thiserror = "2"
tokio = { version = "1", default-features = false, features = ["rt-multi-thread"] }
