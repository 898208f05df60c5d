[package]
name = "carina"
version = "0.1.0"
edition = "2021"
publish = false

[dependencies]
rust-crypto = "=0.2.36"
sodiumoxide = "=0.2.7"
time = "=0.1.45"
clap = "=2.34.0"
log = "=0.4.34"
serde = { version = "=1.0.229", features = ["derive"] }
serde_yaml = "=0.8.26"
base64 = "=0.13.1"
futures-cpupool = "=0.1.8"

[dev-dependencies]
sha3 = "=0.10.9"
