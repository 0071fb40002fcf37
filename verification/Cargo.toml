[package]
name = "markplus"
version = "0.1.0"
edition = "2021"
publish = false

[dependencies]
markplus_core = "*"
serde_json = "*"
clap = { version = "*", features = ["derive"] }

[dev-dependencies]
tempfile = "*"
