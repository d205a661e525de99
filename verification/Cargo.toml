[package]
name = "orderhub"
version = "0.1.0"
edition = "2021"
rust-version = "1.95"
publish = false

[dependencies]
anyhow = "=1.0.104"
clap = { version = "=4.6.7", features = ["derive"] }
nautilus-common = { version = "=0.57.0", features = ["live"] }
nautilus-core = "=0.57.0"
nautilus-execution = "=0.57.0"
nautilus-model = "=0.57.0"
nautilus-portfolio = "=0.57.0"
nautilus-risk = "=0.57.0"
nautilus-sandbox = "=0.57.0"
prost = "=0.14.4"
redb = "=4.4.0"
rust_decimal = "=1.43.0"
serde = { version = "=1.0.229", features = ["derive"] }
serde_json = "=1.0.154"
tokio = { version = "=1.54.1", features = ["rt-multi-thread", "macros", "sync", "time", "net"] }
tokio-stream = "=0.1.19"
tonic = "=0.14.9"
ustr = "=1.1.0"

[dev-dependencies]
tempfile = "=3.27.0"
