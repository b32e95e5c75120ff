[package]
name = "etna_store"
version = "0.1.0"
edition = "2021"
publish = false

[dependencies]
anyhow = "*"
chrono = "*"
clap = { version = "*", features = ["derive"] }
dirs = "*"
env_logger = "*"
git2 = "*"
log = "*"
serde = { version = "*", features = ["derive"] }
tabled = "*"
toml = "*"
