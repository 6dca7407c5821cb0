[package]
name = "codex_termux"
version = "0.1.0"
edition = "2021"
publish = false

[dependencies]
shlex = "1"
http = "1"
chrono = "0.4"
serde = { version = "1", features = ["derive"] }
serde_json = "1"
anyhow = "1"
