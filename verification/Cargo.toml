[package]
name = "lait"
version = "0.1.0"
edition = "2021"
publish = false

[dependencies]
blake3 = "=1.8.7"
ed25519-dalek = "=2.2.0"
data-encoding = "=2.11.1"
getrandom = "=0.3.4"
loro = "=1.17.1"
serde = { version = "1", features = ["derive"] }
serde_json = "1"

[dev-dependencies]
postcard = { version = "=1.1.3", features = ["use-std"] }
