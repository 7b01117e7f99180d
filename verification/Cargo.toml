[package]
name = "inflight"
version = "0.1.0"
edition = "2021"
publish = false

[dependencies]
mio = "=0.6.23"
net2 = "=0.2.39"
kernel32-sys = "=0.2.2"
env_logger = { version = "=0.4.3", default-features = false }
