[package]
name = "sync_manager"
version = "0.1.0"
edition = "2021"
publish = false

[dependencies]
ratatui = "*"
crossterm = "*"
serde = { version = "*", features = ["derive"] }
serde_yaml = "*"
walkdir = "*"
anyhow = "*"
thiserror = "*"
