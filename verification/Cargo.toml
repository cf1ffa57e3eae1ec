[package]
name = "elfredo"
version = "0.1.0"
edition = "2021"
publish = false

[dependencies]
bincode = "1"
crc = "1"
serde = { version = "1", features = ["derive"] }
serde_json = "1"
clap = { version = "3", features = ["derive"] }
tempfile = "3"
failure = "0.1"
