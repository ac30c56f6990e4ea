[package]
name = "qdbr"
version = "0.1.0"
edition = "2021"
publish = false

[dependencies]
parquet2 = { version = "0.17", default-features = false, features = ["snappy", "gzip"] }
jni = "0.21"
serde = { version = "1", features = ["derive"] }
serde_json = "1"
