[package]
name = "rsex"
version = "0.1.0"
edition = "2021"
publish = false

[dependencies]
lazy_static = "1"
log = "0.4"
ordered-float = "2"
serde = { version = "1", features = ["derive"] }
serde_json = "1"
ws = "0.9"
