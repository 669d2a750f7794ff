[package]
name = "layeredfs"
version = "0.1.0"
edition = "2021"
publish = false

[dependencies]
chrono = "*"
rusqlite = { version = "*", features = ["bundled"] }
fuser = { version = "*", default-features = false }
libc = "*"
env_logger = "*"
