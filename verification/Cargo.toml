[package]
name = "version_sync"
version = "0.1.0"
edition = "2021"
publish = false

[dependencies]
toml_edit = "=0.25.16"
serde_json = "=1.0.151"
chrono = "=0.4.45"
git2 = "=0.21.0"
clap = { version = "=4.6.7", features = ["derive"] }
anyhow = "=1.0.104"
