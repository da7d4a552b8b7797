[package]
name = "andon-core"
version = "0.1.0"
edition = "2021"
publish = false

[dependencies]
schemars = "=0.8.22"
serde = { version = "=1.0.229", features = ["derive"] }
serde_json = { version = "=1.0.154", features = ["preserve_order"] }
sha2 = "=0.10.9"
thiserror = "=2.0.21"
toml = "=0.9.12"
