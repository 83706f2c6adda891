[package]
name = "docs_bot"
version = "0.1.0"
edition = "2021"
publish = false

[dependencies]
regex = "1"
actix = "0.13"
actix-web = { version = "4", default-features = false, features = ["macros"] }
expiringmap = "*"
futures-util = "0.3"
langchain-rust = { version = "4", features = ["qdrant"] }
log = "0.4"
pretty_env_logger = "0.5"
serde = { version = "1", features = ["derive"] }
serde_json = "1"
walkdir = "2"
