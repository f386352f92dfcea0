[package]
name = "c2n"
version = "0.1.0"
edition = "2021"
publish = false

[dependencies]
anyhow = "1"
bs58 = "0.5"
futures = "0.3"
futures-timer = "3"
multiaddr = "0.18"
rand = "0.8"
thiserror = "1"
tracing = "0.1"
tracing-subscriber = "0.3"
