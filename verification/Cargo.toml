[package]
name = "bittice"
version = "0.1.0"
edition = "2021"
publish = false

[dependencies]
anyhow = "1"
arboard = { version = "3", default-features = false }
bincode = "1.3"
clap = { version = "4", features = ["derive"] }
cliclack = "0.3"
crossterm = "0.28"
indicatif = "0.17"
lru = "0.12"
memmap2 = "0.9"
parking_lot = "0.12"
ratatui = "0.29"
rayon = "1"
reqwest = { version = "0.12", default-features = false, features = ["blocking", "json"] }
roaring = { version = "0.10", features = ["serde"] }
rustls = { version = "0.23", default-features = false, features = ["ring", "std"] }
self_update = { version = "0.42", default-features = false }
serde = { version = "1", features = ["derive"] }
serde_json = "1"
tokio = { version = "1", features = ["rt-multi-thread", "macros", "time", "sync"] }
tracing = "0.1"
unicode-normalization = "0.1"
uuid = { version = "1", features = ["v4"] }
xxhash-rust = { version = "0.8", features = ["xxh3"] }
zip = { version = "2", default-features = false, features = ["deflate"] }
