[package]
name = "koch"
version = "0.1.0"
edition = "2021"
publish = false

[dependencies]
chrono = "0.4"
regex = "1"
rand = "0.9"
serde = { version = "1", features = ["derive"] }
serde_json = "1"
rusqlite = "*"
stockfish = "*"
ts-rs = "*"
sysinfo = "*"
