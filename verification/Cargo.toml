[package]
name = "spotify-reshuffle"
version = "0.1.0"
edition = "2021"
publish = false

[dependencies]
anyhow = "1"
clap = { version = "4", features = ["derive"] }
env_logger = "0.11"
futures-util = "0.3"
log = "0.4"
rand = "0.9"
rspotify = { version = "*", features = ["cli", "env-file"] }
tokio = { version = "1", features = ["macros", "rt-multi-thread"] }
