[package]
name = "schema_gateway"
version = "0.1.0"
edition = "2021"
publish = false

[dependencies]
serde_json = "=1.0.151"
serde_yaml = "=0.9.34"
jsonschema = { version = "=0.58.6", default-features = false }
url = "=2.5.8"
axum = "=0.8.9"
tokio = { version = "=1.53.2", features = ["rt-multi-thread", "macros", "net", "sync"] }
reqwest = { version = "=0.13.5", default-features = false }
clap = { version = "=4.6.7", features = ["derive"] }
