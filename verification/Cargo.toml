[package]
name = "hidden"
version = "0.1.0"
edition = "2021"
publish = false

[dependencies]
atty = "0.2"
clap = { version = "4", features = ["derive"] }
cli-clipboard = "*"
env_logger = "*"
log = "0.4"
