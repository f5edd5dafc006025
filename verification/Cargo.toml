[package]
name = "mangapill_scraper"
version = "0.1.0"
edition = "2021"
publish = false

[dependencies]
anyhow = "*"
chrono = "*"
clap = { version = "*", features = ["derive"] }
dialoguer = "*"
env_logger = "*"
futures = "*"
indicatif = "*"
lapin = "*"
log = "*"
reqwest = { version = "*", default-features = false }
rkyv = "*"
scraper = "*"
thiserror = "*"
tokio = { version = "*", features = ["full"] }
