[package]
name = "tuxcleaner"
version = "0.5.0"
edition = "2021"
publish = false

[dependencies]
anyhow = "=1.0.104"
chrono = { version = "=0.4.45", features = ["serde"] }
clap = { version = "=4.6.7", features = ["derive"] }
crossterm = "=0.28.1"
dialoguer = "=0.11.0"
dirs = "=6.0.0"
flate2 = "=1.1.10"
fs2 = "=0.4.3"
ratatui = "=0.29.0"
rayon = "=1.12.0"
self-replace = "=1.5.1"
semver = "=1.0.28"
serde = { version = "=1.0.229", features = ["derive"] }
serde_json = "=1.0.154"
sha2 = "=0.10.9"
tar = "=0.4.46"
tempfile = "=3.27.0"
ureq = { version = "=3.5.1", features = ["json"] }
walkdir = "=2.5.0"
