[package]
name = "videoeditor"
version = "0.2.0"
edition = "2021"
publish = false

[dependencies]
base64 = "0.22"
anyhow = "1"
serde = { version = "1", features = ["derive"] }
serde_json = "1"
ureq = { version = "2", features = ["json"] }
tungstenite = "0.24"
tiny_http = "0.12"
clap = { version = "4", features = ["derive"] }
