[package]
name = "konf_provider"
version = "0.1.0"
edition = "2021"
publish = false

[dependencies]
serde_yaml = "*"
serde_json = "*"
toml = "0.8"
base64 = "*"
urlencoding = "*"
sha2 = "*"
hex = "*"
walkdir = "*"
git2 = "*"
anyhow = "*"
clap = { version = "*", features = ["derive"] }
