[package]
name = "migrator"
version = "0.1.0"
edition = "2021"
publish = false

[dependencies]
xml-rs = "*"
serde = { version = "*", features = ["derive"] }
serde_yaml = "*"
clap = { version = "*", features = ["derive"] }
anyhow = "*"
