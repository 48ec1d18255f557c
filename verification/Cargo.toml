[package]
name = "shard_kv"
version = "0.1.0"
edition = "2021"
publish = false

[dependencies]
fxhash = "=0.2.1"
serde_json = "=1.0.154"
tokio = { version = "=1.54.1", features = ["fs", "io-util", "macros", "net", "rt-multi-thread", "sync", "time"] }

[dev-dependencies]
bincode = "=1.3.3"
