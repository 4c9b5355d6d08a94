[package]
name = "swiftfind_core"
version = "0.1.0"
edition = "2021"
publish = false

[dependencies]
serde = { version = "1", features = ["derive"] }
serde_json = "1"
json5 = "0.4"
rusqlite = { version = "*", features = ["bundled"] }
walkdir = "2"
windows-sys = "*"
