[package]
name = "datakiste"
version = "0.3.0"
edition = "2021"
publish = false

[dependencies]
indexmap = { version = "1", features = ["serde-1"] }
rand = "0.8"
serde = { version = "1", features = ["derive"] }
serde_json = "1"

[dev-dependencies]
bincode = "1"
