[package]
name = "mr"
version = "0.1.0"
edition = "2021"
publish = false

[dependencies]
regex = "1"
serde = { version = "1", features = ["derive"] }
serde_json = "1"
tarpc = { version = "*", features = ["full"] }
tokio = { version = "1", features = ["full"] }
futures = "0.3"
clap = { version = "4", features = ["derive"] }
libloading = "*"
anyhow = "1"
tracing = "0.1"
toml = "*"
