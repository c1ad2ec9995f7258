[package]
name = "cue_stack"
version = "0.1.0"
edition = "2021"
publish = false

[dependencies]
env_logger = "0.11"
humantime-serde = "1"
log = "0.4"
rodio = "0.21"
serde = { version = "1", features = ["derive"] }
serde_yaml = "0.9"
