[package]
name = "jo"
version = "0.1.0"
edition = "2021"
publish = false

[dependencies]
bit-vec = "=0.10.1"
bytesize = "=2.7.0"
chrono = "=0.4.45"
color-eyre = "=0.6.5"
crossterm = { version = "=0.29.0", features = ["event-stream"] }
ego-tree = "=0.11.1"
notify = "=8.2.1"
ratatui = { version = "=0.30.2", features = ["serde"] }
ron = "=0.12.3"
serde = { version = "=1.0.229", features = ["derive"] }
smol = "=2.0.2"
sysinfo = "=0.37.2"
tachyonfx = "=0.25.2"
tracing = "=0.1.44"
tracing-subscriber = "=0.3.23"
