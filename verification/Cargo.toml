[package]
name = "ai-pool"
version = "0.2.0"
edition = "2021"
publish = false

[dependencies]
aes-gcm = "0.10"
dashmap = "6"
futures-util = "0.3"
hex = "0.4"
keyring = "3"
rand = "0.9"
reqwest = { version = "0.12", default-features = false, features = ["json", "stream", "rustls-tls"] }
schemars = "0.8"
secrecy = "0.10"
serde = { version = "1", features = ["derive"] }
serde_json = "1"
sha2 = "0.10"
sqlx = { version = "0.8", default-features = false, features = ["runtime-tokio", "sqlite"] }
thiserror = "2"
tokio = { version = "1", features = ["macros", "rt-multi-thread", "sync", "time"] }
tracing = "0.1"
