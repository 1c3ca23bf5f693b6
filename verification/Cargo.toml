[package]
name = "maram"
version = "0.1.0"
edition = "2021"
publish = false

[dependencies]
anyhow = "1"
clap = { version = "4", features = ["derive"] }
console = "*"
dialoguer = "*"
dirs = "*"
git2 = { version = "*", default-features = false }
indicatif = "*"
serde = { version = "1", features = ["derive"] }
serde_json = "1"
toml = "*"
