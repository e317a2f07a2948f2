[package]
name = "ton_indexer"
version = "0.1.0"
edition = "2021"
publish = false

[dependencies]
anyhow = "1"
futures = "0.3"
log = "0.4"
parking_lot = "0.12"
rocksdb = { version = "0.18", default-features = false, features = ["multi-threaded-cf"] }
rustc-hash = "1.1"
sha2 = "0.10"
smallvec = "1"
thiserror = "1"
tokio = { version = "1", features = ["fs", "io-util", "rt", "sync", "time"] }
tracing = "0.1"
