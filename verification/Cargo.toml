[package]
name = "shelf"
version = "0.1.0"
edition = "2021"
publish = false

[dependencies]
fuzzy-matcher = "*"
crossterm = "*"
colored = "*"
copypasta = "*"
anyhow = "*"
clap = { version = "*", features = ["derive"] }
dirs = "*"
shellexpand = "*"
toml = "*"
serde = { version = "*", features = ["derive"] }
