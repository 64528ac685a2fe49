[package]
name = "icn_economics"
version = "0.1.0"
edition = "2021"
publish = false

[dependencies]
serde = { version = "1", features = ["derive"] }
serde_json = "1"
bincode = "1"
sled = "0.34"
rusqlite = { version = "0.31", features = ["bundled"] }
log = "0.4"
tokio = { version = "1", features = ["sync", "rt", "macros", "time"] }

[dev-dependencies]
tempfile = "3"
