[package]
name = "gukab"
version = "0.1.0"
edition = "2021"
publish = false

[dependencies]
regex = "=1.13.1"
serde = { version = "=1.0.229", features = ["derive"] }
toml = "=1.1.8"
chrono = "=0.4.45"
tokio = { version = "=1.54.1", features = ["full"] }
crossterm = "=0.29.0"
ratatui = "=0.30.2"
keyring = { version = "=3.6.3", features = ["apple-native", "windows-native", "linux-native"] }
serialport = { version = "=4.10.1", default-features = false }
russh = { version = "=0.65.0", features = ["des"] }
