[package]
name = "webtk"
version = "0.1.0"
edition = "2021"
publish = false

[dependencies]
globset = "*"
clap = { version = "*", features = ["derive"] }
serde = { version = "*", features = ["derive"] }
serde_json = "*"
