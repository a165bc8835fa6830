[package]
name = "tsrun"
version = "0.1.0"
edition = "2021"
publish = false

[dependencies]
serde_json = "1"
indexmap = "2"
chrono = { version = "0.4", default-features = false, features = ["alloc"] }
