[package]
name = "alt"
version = "0.1.0"
edition = "2021"
publish = false

[dependencies]
anyhow = "=1.0.104"
clap = "=2.34.0"
dirs = "=3.0.2"
log = "=0.4.35"
ron = "=0.6.6"
serde = { version = "=1.0.229", features = ["derive"] }
simplelog = "=0.8.0"
tmq = "=0.2.1"
tokio = { version = "=0.2.25", features = ["full"] }
tokio-i3ipc = "=0.11.0"
