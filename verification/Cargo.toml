[package]
name = "match_risk_engine"
version = "0.1.0"
edition = "2021"
publish = false

[dependencies]
bytes = "=1.12.1"
crossbeam-channel = "=0.5.17"
crossbeam-skiplist = "=0.1.3"
slotmap = "=1.1.1"
smallvec = "=1.16.4"
thiserror = "=1.0.69"
tokio = { version = "=1.54.1", features = ["net", "io-util", "rt", "rt-multi-thread", "sync", "time"] }

[dev-dependencies]
rand = "=0.8.8"
