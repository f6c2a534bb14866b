[package]
name = "omnyssh"
version = "0.1.0"
edition = "2021"
publish = false

[dependencies]
suppaftp = { version = "=12.2.1", features = ["tokio", "tokio-rustls-ring"] }
serde = { version = "=1.0.229", features = ["derive"] }
toml = "=1.1.8"
tokio = { version = "=1.54.1", features = ["full"] }
anyhow = "=1.0.104"
async-trait = "=0.1.92"
tracing = "=0.1.44"
webpki-roots = "=1.0.10"
