[package]
name = "lipl_storage"
version = "0.1.0"
edition = "2021"
publish = false

[dependencies]
etag = "*"
toml = "*"
serde = { version = "1", features = ["derive"] }
serde_json = "1"
chrono = { version = "0.4", default-features = false, features = ["std"] }
