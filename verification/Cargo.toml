[package]
name = "fedora-update-feedback"
version = "2.1.0"
edition = "2021"
publish = false

[dependencies]
bodhi = "2"
chrono = "0.4"
clap = { version = "4", features = ["derive"] }
dirs = "*"
env_logger = "*"
log = "0.4"
rpassword = "7"
secret-service = { version = "*", features = ["rt-tokio-crypto-rust"] }
serde = { version = "1", features = ["derive"] }
serde_json = "1"
tempfile = "3"
term_size = "0.3"
textwrap = "0.16"
tokio = { version = "1", features = ["fs", "process", "macros", "rt-multi-thread"] }
toml = "*"
