[package]
name = "gantt_cli"
version = "0.1.0"
edition = "2021"
publish = false

[dependencies]
chrono = { version = "=0.4.45", features = ["serde"] }
unicode-width = "=0.2.0"
serde = { version = "=1.0.229", features = ["derive"] }
serde_json = "=1.0.154"
crossterm = "=0.28.1"
ratatui = "=0.29.0"
ureq = "=2.12.1"
