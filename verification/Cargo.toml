[package]
name = "mmonitor"
version = "0.1.0"
edition = "2021"
publish = false

[dependencies]
serde = { version = "1", features = ["derive"] }
serde_json = "1"
toml = "*"
rusqlite = { version = "*", features = ["bundled"] }
libc = "0.2"
mach2 = "*"
