[package]
name = "crypto_ecosystems"
version = "0.1.0"
edition = "2021"
publish = false

[dependencies]
anyhow = "*"
glob = "*"
imara-diff = "*"
serde = { version = "*", features = ["derive"] }
serde_json = "*"
slug = "*"
structopt = "*"
toml = "*"
url = "*"
