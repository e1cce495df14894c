[package]
name = "mtcap"
version = "0.1.0"
edition = "2021"
publish = false

[dependencies]
anyhow = "1"
chrono = { version = "0.4", default-features = false, features = ["std"] }
json = "0.12"
serde = { version = "1", features = ["derive"] }
serde_json = "1"
strum_macros = "*"
thiserror = "1"
