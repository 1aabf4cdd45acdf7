[package]
name = "tasklist"
version = "0.1.0"
edition = "2021"
publish = false

[dependencies]
clap = { version = "=4.6.7", features = ["derive"] }
dirs = "=7.0.0"

[dev-dependencies]
serde_json = { version = "=1.0.151", features = ["preserve_order"] }
