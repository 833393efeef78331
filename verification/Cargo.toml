[package]
name = "coplex-cage"
version = "0.1.0"
edition = "2021"
publish = false

[dependencies]
serde = { version = "=1.0.229", features = ["derive"] }
serde_json = "=1.0.154"
glob = "=0.3.4"
wasmtime = "=46.0.3"
wasmtime-wasi = "=46.0.3"
anyhow = "=1.0.104"
log = "=0.4.35"
env_logger = "=0.11.11"
clap = { version = "=4.6.7", features = ["derive"] }
base64 = "=0.22.1"
chrono = "=0.4.45"
getrandom = "=0.3.4"
ureq = "=3.5.1"
