[package]
name = "pak_extract"
version = "0.1.0"
edition = "2021"
publish = false

[dependencies]
flate2 = "1"
dashmap = "6"
zip = "2"
oodle-safe = "*"

[dev-dependencies]
serde_json = "1"
