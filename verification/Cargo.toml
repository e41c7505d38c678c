[package]
name = "ci_report"
version = "0.1.0"
edition = "2021"
publish = false

[dependencies]
anyhow = "*"
cargo_metadata = "*"
clap = { version = "*", features = ["derive", "env"] }
env_logger = "*"
log = "*"

[dev-dependencies]
serde_json = "*"
