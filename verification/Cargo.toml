[package]
name = "rtask"
version = "0.1.0"
edition = "2021"
publish = false

[dependencies]
uuid = { version = "1", features = ["v4", "serde"] }
chrono = { version = "0.4", features = ["serde"] }
serde = { version = "1", features = ["derive"] }
serde_json = "1"
rusqlite = { version = "*", features = ["bundled"] }
clap = "2"
ansi_term = "0.12"
libc = "0.2"
log = "0.4"
env_logger = "*"
toml = "*"

[dev-dependencies]
regex = "1"
