[package]
name = "tuican"
version = "0.1.0"
edition = "2021"
publish = false

[dependencies]
anyhow = "=1.0.104"
can-dbc = "=10.0.0"
clap = { version = "=4.6.7", features = ["derive"] }
crossbeam-channel = "=0.5.17"
crossterm = "=0.29.0"
directories = "=6.0.0"
embedded-can = "=0.4.1"
ratatui = "=0.30.2"
rusb = "=0.9.4"
serde = { version = "=1.0.229", features = ["derive"] }
serialport = { version = "=4.10.1", default-features = false }
socketcan = "3"
thiserror = "=2.0.21"
toml = "=1.1.8"
tracing = "=0.1.44"
tracing-appender = "=0.2.5"
tracing-subscriber = { version = "=0.3.23", features = ["env-filter"] }
