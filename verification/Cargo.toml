[package]
name = "rustsheng"
version = "0.1.0"
edition = "2021"
publish = false

[dependencies]
anyhow = "1"
clap = { version = "4", features = ["derive"] }
env_logger = "*"
indicatif = "*"
log = "0.4"
serialport = { version = "4", default-features = false }
thiserror = "*"
