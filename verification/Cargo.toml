[package]
name = "remnem"
version = "0.1.0"
edition = "2021"
publish = false

[dependencies]
napi = { version = "2", default-features = false, features = ["napi6"] }
napi-derive = "2"
rayon = "1"
serde_json = "1"
serde_yaml = "0.9"
