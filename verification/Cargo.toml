[package]
name = "minigreplib"
version = "0.1.0"
edition = "2021"
publish = false

[dependencies]
anyhow = "*"
clap = { version = "*", features = ["derive"] }
confy = "*"
env_logger = "*"
log = "*"
owo-colors = "*"
regex = "*"
serde = { version = "*", features = ["derive"] }
serde_json = "*"
