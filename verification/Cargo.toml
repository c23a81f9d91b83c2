[package]
name = "aidbox_generator"
version = "0.1.0"
edition = "2021"
publish = false

[dependencies]
itertools = "0.12"
regex = "1"
dprint-plugin-typescript = "*"
serde = { version = "1", features = ["derive"] }
serde_json = "1"
reqwest = { version = "0.11", default-features = false, features = ["json", "rustls-tls"] }
tokio = { version = "1", features = ["macros", "rt-multi-thread"] }
toml = "0.8"
dirs = "5"
chrono = { version = "0.4", features = ["serde"] }
clap = "4"
log = "0.4"
env_logger = "0.10"
