[package]
name = "fresh_view"
version = "0.1.0"
edition = "2021"
publish = false

[dependencies]
ratatui = { version = "0.29", default-features = false }
serde_json = "1"
