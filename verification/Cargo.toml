[package]
name = "ingot"
version = "0.1.0"
edition = "2021"
publish = false

[dependencies]
anyhow = "=1.0.104"
base64 = "=0.22.1"
bytes = "=1.12.1"
chrono = "=0.4.45"
clap = { version = "=4.6.7", features = ["derive"] }
clap_complete = "=4.6.11"
flate2 = "=1.1.10"
futures = "=0.3.34"
glob = "0.3"
hex = "=0.4.3"
http-body-util = "=0.1.5"
hyper = { version = "=1.12.0", features = ["client", "http1"] }
hyper-util = { version = "=0.1.21", features = ["client", "client-legacy", "http1", "tokio"] }
libc = "=0.2.191"
nix = { version = "=0.29.0", features = ["user", "mount"] }
reqwest = { version = "=0.12.28", default-features = false, features = ["json", "stream", "rustls-tls"] }
serde = { version = "=1.0.229", features = ["derive"] }
serde_json = "=1.0.154"
serde_yaml = "=0.9.34+deprecated"
sha2 = "=0.10.9"
tar = "=0.4.46"
tokio = { version = "=1.54.1", features = ["full"] }
tower-service = "=0.3.3"
tracing = "=0.1.44"
tracing-subscriber = { version = "=0.3.23", features = ["env-filter"] }
walkdir = "=2.5.0"
zstd = "=0.13.4"
