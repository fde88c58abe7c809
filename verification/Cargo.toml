[package]
name = "muta"
version = "0.1.0"
edition = "2021"
publish = false

[dependencies]
anyhow = "1"
core-foundation = "0.9"
env_logger = "0.11"
futures-lite = "2"
libc = "0.2"
log = "0.4"
nusb = "0.2"
rusb = { version = "0.9", features = ["vendored"] }
system-configuration = "0.7"
