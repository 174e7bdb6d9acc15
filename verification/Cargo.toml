[package]
name = "zellij_codex"
version = "0.1.0"
edition = "2021"
publish = false

[dependencies]
ansi_term = "=0.12.1"
unicode-width = "=0.1.14"
zellij-tile = "=0.44.3"
serde = { version = "=1.0.229", features = ["derive"] }
serde_json = "=1.0.154"
