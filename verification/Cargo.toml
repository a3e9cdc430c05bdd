[package]
name = "codex_frontend"
version = "0.1.0"
edition = "2021"
publish = false

[dependencies]
toml = "*"
uuid = { version = "1", features = ["v4"] }
