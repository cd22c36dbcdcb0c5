[package]
name = "pshred_router"
version = "0.1.0"
edition = "2021"
publish = false

[dependencies]
anyhow = "=1.0.104"
aya = "=0.14.0"
aya-build = "=0.2.0"
aya-ebpf = "=0.2.1"
clap = { version = "=4.6.7", features = ["derive"] }
env_logger = "=0.11.11"
libc = "=0.2.191"
log = "=0.4.35"
network-types = "=0.2.0"
xdpilone = "=1.3.0"
