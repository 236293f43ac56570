[package]
name = "bohongan"
version = "0.1.0"
edition = "2021"
publish = false

[dependencies]
regex = "*"
serde_json = "*"
actix-web = "*"
clap = "*"
env_logger = "*"
log = "*"
