[package]
name = "melin"
version = "0.1.0"
edition = "2021"
publish = false

[dependencies]
base64 = "0.22"
clap = { version = "4", features = ["derive"] }
ed25519-dalek = "2"
flate2 = "1"
getrandom = "0.3"
hdrhistogram = { version = "7", default-features = false }
humantime = "2"
io-uring = "0.7"
libc = "0.2"
rayon = "1"
smoltcp = { version = "0.12", default-features = false, features = ["std", "medium-ethernet", "proto-ipv4", "socket-tcp"] }
tikv-jemallocator = "0.6"
toml = "0.8"
tracing = "0.1"
tracing-subscriber = { version = "0.3", features = ["env-filter"] }
