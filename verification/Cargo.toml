[package]
name = "prime_search"
version = "0.1.0"
edition = "2021"
publish = false

[dependencies]
rusqlite = { version = "*", features = ["bundled"] }
chrono = "*"
log = "*"
env_logger = "*"
