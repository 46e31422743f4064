[package]
name = "card_room"
version = "0.1.0"
edition = "2021"
publish = false

[dependencies]
ahash = "*"
tokio = { version = "*", features = ["sync", "rt", "rt-multi-thread", "time", "macros"] }
parking_lot = "*"
base64 = "*"
sharded-slab = "*"
