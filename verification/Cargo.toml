[package]
name = "app_bridge"
version = "0.1.0"
edition = "2021"
publish = false

[dependencies]
sha2 = { version = "0.10", features = ["oid"] }
rsa = { version = "0.9", features = ["sha2"] }
base64 = "0.22"
serde = { version = "1", features = ["derive"] }
serde_json = "1"
tokio = { version = "1", features = ["rt-multi-thread", "net", "macros"] }
axum = "0.8"
tower = "0.5"
tower-http = { version = "0.6", features = ["set-header"] }
reqwest = { version = "0.12", default-features = false }

[dev-dependencies]
rand = "0.8"
