[package]
name = "tofnd"
version = "0.1.0"
edition = "2021"
publish = false

[dependencies]
bincode = "1"
tofn = "*"
tokio = { version = "1", features = ["rt-multi-thread", "sync", "macros"] }
tonic = "*"
