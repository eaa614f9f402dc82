[package]
name = "carbonthrone"
version = "0.1.0"
edition = "2021"
publish = false

[dependencies]
crossterm = "0.28"
dirs = "5"
rand = "0.8"
serde = { version = "1", features = ["derive"] }
serde_yaml = "0.9"
