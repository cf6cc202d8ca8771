[package]
name = "zkrust"
version = "0.1.0"
edition = "2021"
publish = false

[dependencies]
regex = "1"
hex = "0.4"
anyhow = "1"
clap = { version = "4", features = ["derive"] }
tokio = { version = "1", features = ["macros", "rt-multi-thread", "io-util"] }
env_logger = "0.11"
log = "0.4"
dialoguer = "0.11"
rpassword = "7"
serde = { version = "1", features = ["derive"] }
serde_json = "1"
