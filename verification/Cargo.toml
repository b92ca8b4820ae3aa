[package]
name = "rjvm"
version = "0.1.0"
edition = "2021"
publish = false

[dependencies]
binread = "2"
log = "0.4"
env_logger = "*"
