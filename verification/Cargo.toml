[package]
name = "taskvim"
version = "0.1.0"
edition = "2021"
publish = false

[dependencies]
uuid = { version = "*", features = ["v4"] }
chrono = "*"
rusqlite = { version = "*", features = ["bundled"] }
crossterm = "*"
ratatui = "*"
mlua = { version = "*", features = ["lua54", "vendored"] }
serde = { version = "*", features = ["derive"] }
serde_json = "*"
