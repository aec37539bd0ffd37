[package]
name = "turtl_core"
version = "0.1.0"
edition = "2021"
publish = false

[dependencies]
log = "=0.4.35"
rustc-serialize = "=0.3.25"
serde_json = { version = "=1.0.154", features = ["float_roundtrip"] }
sodiumoxide = "=0.2.7"
websocket = { version = "=0.27.1", default-features = false, features = ["sync"] }
