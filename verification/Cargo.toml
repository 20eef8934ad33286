[package]
name = "dhat"
version = "0.1.0"
edition = "2021"
publish = false

[dependencies]
backtrace = "0.3"
lazy_static = "1.4"
rustc-hash = "1.1"
serde = { version = "1.0", features = ["derive"] }
serde_json = "1.0"
thousands = "0.2"
