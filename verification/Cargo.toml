[package]
name = "yt-gtk"
version = "0.1.0"
edition = "2021"
publish = false

[dependencies]
anyhow = "=1.0.104"
async-channel = "=2.5.0"
chrono = { version = "=0.4.45", features = ["serde"] }
chrono-humanize = "=0.2.3"
directories = "=6.0.0"
env_logger = "=0.11.11"
futures = "=0.3.34"
gtk4 = { version = "=0.11.5", features = ["v4_12"] }
indexmap = "=2.14.2"
iso8601 = "=0.6.6"
libadwaita = { version = "=0.9.2", features = ["v1_5"] }
log = "=0.4.35"
quick-xml = "=0.37.5"
reqwest = { version = "=0.12.28", default-features = false, features = ["json", "rustls-tls"] }
serde = { version = "=1.0.229", features = ["derive"] }
serde_json = "=1.0.154"
thiserror = "=2.0.21"
tokio = { version = "=1.54.1", features = ["full"] }
