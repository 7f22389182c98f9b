[package]
name = "headband"
version = "0.1.0"
edition = "2021"
publish = false

[dependencies]
crossterm = { version = "0.29", features = ["osc52"] }
rand = "0.9"
ratatui = "0.30"
serde = { version = "1", features = ["derive"] }
serde_json = "1"
