[package]
name = "json_filter"
version = "0.1.0"
edition = "2021"
publish = false

[dependencies]
indexmap = "1"
serde_json = { version = "1.0", features = ["preserve_order"] }
