[package]
name = "ondris"
version = "0.1.0"
edition = "2021"
publish = false

[dependencies]
blake3 = "1"
hex = "0.4"
ed25519-dalek = "2"
rand = "0.8"
rand_xoshiro = "0.6"
argon2 = "0.5"
aes-gcm = "0.10"
serde = { version = "1", features = ["derive"] }
serde_json = "1"
sled = "0.34"
snow = "0.9"
tokio = { version = "1", features = ["full"] }
axum = "0.7"
tower-http = { version = "0.5", features = ["cors"] }
clap = { version = "4", features = ["derive"] }
reqwest = { version = "0.12", default-features = false, features = ["blocking", "json"] }
rpassword = "7"
tracing = "0.1"
tracing-subscriber = "0.3"
anyhow = "1"
