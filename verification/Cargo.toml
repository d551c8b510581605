[package]
name = "alias_launcher"
version = "0.1.0"
edition = "2021"
publish = false

[dependencies]
strsim = "0.11"
shellwords = "1"
ratatui = "0.29"
crossterm = "0.28"
tokio = { version = "1", features = ["full"] }
color-eyre = "0.6"
serde = { version = "1", features = ["derive"] }
toml = { version = "0.8", features = ["preserve_order"] }
