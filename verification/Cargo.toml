[package]
name = "qualitygate"
version = "0.1.0"
edition = "2021"
publish = false

[dependencies]
anyhow = "1"
base64 = "0.22"
ed25519-dalek = "2"
sha2 = "0.10"
serde = { version = "1", features = ["derive"] }
serde_json = "1"
roxmltree = "0.20"
zip = { version = "2", default-features = false, features = ["deflate"] }
regex = "1"
url = "2"
percent-encoding = "2"
globset = "0.4"

[dev-dependencies]
serde_json = "1"
