[package]
name = "vsr_rs"
version = "0.1.0"
edition = "2021"
publish = false

[dependencies]
foldhash = "*"
rand = "0.8"
rand_chacha = "0.3"
anyhow = "1"
env_logger = "0.11"
log = "0.4"
fjall = "*"
