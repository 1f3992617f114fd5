[package]
name = "slipstream_state"
version = "0.1.0"
edition = "2021"
publish = false

[dependencies]
libc = "0.2"
rusqlite = { version = "0.37", features = ["bundled"] }
serde = { version = "1", features = ["derive"] }
serde_json = "1"
sha2 = "0.10"
tokio = { version = "1", features = ["sync", "rt"] }
