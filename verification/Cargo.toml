[package]
name = "termviai"
version = "0.1.0"
edition = "2021"
publish = false

[dependencies]
anyhow = "1"
fastrand = "2"
serde = { version = "1", features = ["derive"] }
serde_json = "1"
tempfile = "3"
