[package]
name = "git_chai"
version = "0.1.0"
edition = "2021"
publish = false

[dependencies]
anyhow = "*"
clap = { version = "*", features = ["derive"] }
ctrlc = "*"
env_logger = "*"
log = "*"
serde = { version = "*", features = ["derive"] }
