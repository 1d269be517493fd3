[package]
name = "crypto_store"
version = "0.1.0"
edition = "2021"
publish = false

[dependencies]
serde_json = "=1.0.151"
dashmap = "=6.2.1"
matrix-sdk-common = "=0.17.0"
sqlx = { version = "=0.9.0", default-features = false, features = ["sqlite", "runtime-tokio"] }
tokio = { version = "=1.53.2", default-features = false, features = ["rt", "macros"] }
