[package]
name = "koharu_translator"
version = "0.1.0"
edition = "2021"
publish = false

[dependencies]
anyhow = "1"
regex = "1"
reqwest = { version = "0.13", default-features = false }
serde = { version = "1", features = ["derive"] }
serde_json = "1"
specta = "1.0.5"
tokio = { version = "1", features = ["sync"] }
tracing = "0.1"
