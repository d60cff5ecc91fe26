[package]
name = "mmterm"
version = "0.1.0"
edition = "2021"
publish = false

[dependencies]
anyhow = "1"
base64 = "0.22"
chrono = "0.4"
crossbeam-channel = "0.5"
dirs-next = "2"
font-kit = "*"
fontdue = "*"
log = "0.4"
portable-pty = "*"
serde = { version = "1", features = ["derive"] }
toml = "0.8"
