[package]
name = "zitadel_core"
version = "0.1.0"
edition = "2021"
publish = false

[dependencies]
base64 = "0.22"
sha2 = "0.10"
url = "2"
serde = { version = "1", features = ["derive"] }
serde_json = "1"
uuid = { version = "1", features = ["v4", "v7"] }
anyhow = "1"
axum = "0.8"
tokio = { version = "1", features = ["macros", "rt-multi-thread"] }
