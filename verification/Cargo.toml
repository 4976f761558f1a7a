[package]
name = "autotrim"
version = "0.1.0"
edition = "2021"
publish = false

[dependencies]
strsim = "0.11"
anyhow = "1"
serde = { version = "1", features = ["derive"] }
serde_json = "1"
regex = "1"
once_cell = "1"
uuid = { version = "1", features = ["v4"] }
tokio = { version = "1", features = ["full"] }
reqwest = { version = "0.12", features = ["json", "multipart"] }
