[package]
name = "media_transcriber_mcp"
version = "0.7.3"
edition = "2021"
publish = false

[dependencies]
anyhow = "1"
async-trait = "*"
base64 = "0.22"
clap = { version = "4", features = ["derive", "env"] }
hound = "*"
rust-mcp-sdk = "*"
serde = { version = "1", features = ["derive"] }
serde_json = "1"
tempfile = "3"
tokio = { version = "1", features = ["full"] }
whisper-rs = "*"
