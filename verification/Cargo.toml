[package]
name = "codex_usage"
version = "0.1.0"
edition = "2021"
publish = false

[dependencies]
time = { version = "0.3", features = ["parsing", "formatting"] }
serde = { version = "1", features = ["derive"] }
serde_json = "1"
rusqlite = { version = "*", features = ["bundled", "functions"] }
sha2 = "0.10"
bigdecimal = "0.4"
thiserror = "*"
