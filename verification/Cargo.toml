[package]
name = "prometheus_core"
version = "0.1.0"
edition = "2021"
publish = false

[dependencies]
crossterm = "=0.28.1"
ctrlc = "=3.4.7"
directories = "=6.0.0"
dirs = "=6.0.0"
fs_extra = "=1.3.0"
ratatui = "=0.29.0"
reqwest = { version = "=0.12.28", default-features = false, features = ["blocking", "json"] }
serde = { version = "=1.0.229", features = ["derive"] }
serde_json = "=1.0.151"
trash = "=5.2.9"
walkdir = "=2.5.0"
