[package]
name = "grimoire"
version = "0.1.0"
edition = "2021"
publish = false

[dependencies]
anyhow = "=1.0.104"
base64 = "=0.22.1"
clap = { version = "=4.6.7", features = ["derive"] }
clap_complete = "=4.6.11"
crossterm = "=0.28.1"
dirs = "=7.0.0"
fastembed = { version = "=7.5.0", default-features = false }
flate2 = "=1.1.10"
image = { version = "=0.25.10", default-features = false, features = ["png"] }
lopdf = "=0.46.0"
nucleo-matcher = "=0.3.1"
quick-xml = "=0.37.5"
ratatui = "=0.29.0"
regex = "=1.13.1"
reqwest = { version = "=0.12.28", default-features = false, features = ["blocking", "rustls-tls"] }
rusqlite = { version = "=0.41.1", features = ["bundled"] }
serde = { version = "=1.0.229", features = ["derive"] }
serde_json = "=1.0.154"
serde_norway = "=0.9.42"
shellexpand = "=3.1.2"
slug = "=0.1.6"
tar = "=0.4.46"
tempfile = "=3.27.0"
toml = "=1.1.8"
urlencoding = "=2.1.3"
