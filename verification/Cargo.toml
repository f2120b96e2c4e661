[package]
name = "todocol"
version = "0.1.0"
edition = "2021"
publish = false

[dependencies]
anyhow = "1"
clap = "2.33"
config = "0.11"
env_logger = "0.8"
log = "0.4"
shellexpand = "2"
