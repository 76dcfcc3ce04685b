[package]
name = "payments_engine_challenge"
version = "0.1.0"
edition = "2021"
publish = false

[dependencies]
rust_decimal = "1"
rand = { version = "*", features = ["small_rng"] }
csv = "1"
serde = { version = "1", features = ["derive"] }
anyhow = "1"
log = "0.4"
env_logger = "*"
thiserror = "*"
dashmap = "*"
crossbeam = "0.8"
hdrhistogram = "*"
libc = "0.2"
