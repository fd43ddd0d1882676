[package]
name = "study_tracker"
version = "0.1.0"
edition = "2021"
publish = false

[dependencies]
rusqlite = { version = "*", features = ["bundled"] }
serde = { version = "1", features = ["derive"] }
uuid = { version = "1", features = ["v4"] }
