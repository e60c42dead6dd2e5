[package]
name = "hardknock"
version = "0.1.0"
edition = "2021"
publish = false

[dependencies]
blake3 = "1"
uuid = { version = "1", features = ["v4"] }
semver = "1"
regex = "1"
serde = { version = "1", features = ["derive"] }
serde_json = "1"
chrono = { version = "0.4", features = ["serde"] }
