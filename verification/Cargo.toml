[package]
name = "shell_sync"
version = "0.1.0"
edition = "2021"
publish = false

[dependencies]
aes-gcm = "*"
base64 = "*"
sha2 = "*"
x25519-dalek = { version = "*", features = ["static_secrets"] }
rand = "*"
serde = { version = "*", features = ["derive"] }
serde_json = "*"
uuid = { version = "*", features = ["v4"] }
chrono = "*"
rusqlite = { version = "*", features = ["bundled"] }
anyhow = "*"
toml = "*"
tokio = { version = "*", features = ["full"] }
reqwest = { version = "*", default-features = false, features = ["json", "rustls-tls"] }
axum = { version = "*", features = ["ws"] }
tokio-tungstenite = "*"
futures-util = "*"
libc = "*"
gethostname = "*"
directories = "*"
tracing = "*"
