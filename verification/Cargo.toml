[package]
name = "edelweissd"
version = "0.1.0"
edition = "2021"
publish = false

[dependencies]
tokio = { version = "*", features = ["rt-multi-thread", "sync", "macros"] }
log = "*"
env_logger = "*"
libc = "*"
