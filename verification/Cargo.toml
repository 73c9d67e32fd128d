[package]
name = "egglog"
version = "0.1.0"
edition = "2021"
publish = false

[dependencies]
indexmap = "2"
csv = "1"
serde = { version = "1", features = ["derive"] }
serde_json = "1"
thiserror = "2"
