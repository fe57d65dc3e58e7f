[package]
name = "simple_dub"
version = "0.1.0"
edition = "2021"
publish = false

[dependencies]
sha2 = "0.10"
keyring = { version = "3", features = ["windows-native"] }
serde = { version = "1", features = ["derive"] }
serde_json = "1"
thiserror = "2"
hound = "3"
uuid = { version = "1", features = ["v4"] }
reqwest = { version = "0.12", default-features = false, features = ["blocking", "json", "rustls-tls"] }
