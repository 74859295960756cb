[package]
name = "rustortion"
version = "0.1.0"
edition = "2021"
publish = false

[dependencies]
anyhow = "1"
chrono = "0.4"
crossbeam = "0.8"
hound = "3"
log = "0.4"
nam-rs = "*"
rubato = "1"
serde = { version = "1", features = ["derive"] }
serde_json = "1"
