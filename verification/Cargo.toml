[package]
name = "ice_turn"
version = "0.1.0"
edition = "2021"
publish = false

[dependencies]
stun = "*"
tokio = { version = "*", features = ["sync", "time", "rt", "macros"] }
