[package]
name = "emrent"
version = "0.1.0"
edition = "2021"
publish = false

[dependencies]
serde_bencode = "0.2"
sha1 = "0.10"
hex = "0.4"
rand = "0.9"
serde = { version = "1", features = ["derive"] }
serde_bytes = "0.11"
anyhow = "1"
tokio = { version = "1", features = ["net", "time", "io-util", "fs", "rt", "sync", "macros"] }
reqwest = { version = "0.12", default-features = false }
