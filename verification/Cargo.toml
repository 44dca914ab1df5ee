[package]
name = "paper"
version = "0.1.0"
edition = "2021"
publish = false

[dependencies]
clap = "=2.34.0"
crossterm = "=0.28.1"
fehler = "=1.0.0"
log = "=0.4.34"
lsp-types = "=0.97.0"
market = "=0.30.1"
notify = "=4.0.18"
rec = "=0.3.0"
serde = { version = "=1.0.229", features = ["derive"] }
thiserror = "=1.0.69"
time = "=0.2.27"
toml = "=0.5.11"
