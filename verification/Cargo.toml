[package]
name = "protontweaks"
version = "0.1.0"
edition = "2021"
publish = false

[dependencies]
clap = { version = "=4.6.7", features = ["derive"] }
log = "=0.4.34"
owo-colors = "=4.4.0"
pretty_env_logger = "=0.5.0"
protontweaks-api = "=0.2.0"
tokio = { version = "=1.53.2", features = ["macros", "rt-multi-thread"] }
