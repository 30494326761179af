[package]
name = "epochoxide"
version = "0.1.0"
edition = "2021"
publish = false

[dependencies]
anyhow = "=1.0.104"
clap = { version = "=4.6.7", features = ["derive"] }
dirs = "=7.0.0"
meval = "=0.2.0"
notify = "=8.2.1"
rcgen = "=0.13.2"
ring = "=0.17.14"
rustls = { version = "=0.23.46", default-features = false, features = ["ring", "std", "tls12"] }
serde = { version = "=1.0.229", features = ["derive"] }
serde_json = "=1.0.154"
shellexpand = "=3.1.2"
socket2 = { version = "=0.6.5", features = ["all"] }
toml = "=1.1.8"
walkdir = "=2.5.0"
which = "=8.0.6"
