[package]
name = "shinobu"
version = "0.1.0"
edition = "2021"
publish = false

[dependencies]
anyhow = "1"
cocoa = "*"
core-foundation = "*"
core-foundation-sys = "*"
env_logger = "*"
libc = "0.2"
log = "0.4"
objc = "0.2"
tokio = { version = "1", features = ["macros", "rt-multi-thread", "sync", "time"] }
