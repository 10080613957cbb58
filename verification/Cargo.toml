[package]
name = "heelix"
version = "0.1.0"
edition = "2021"
publish = false

[dependencies]
anyhow = "1"
html2text = "*"
log = "0.4"
rusqlite = { version = "*", features = ["bundled"] }
serde = { version = "1", features = ["derive"] }
tokio = { version = "1", features = ["sync", "rt", "macros"] }
