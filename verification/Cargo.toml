[package]
name = "adb_sync_tool"
version = "0.1.0"
edition = "2021"
publish = false

[dependencies]
adb_client = "*"
clap = { version = "*", features = ["derive"] }
console = "*"
dialoguer = "*"
indicatif = "*"
serde = { version = "*", features = ["derive"] }
serde_json = "*"
