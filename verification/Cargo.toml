[package]
name = "zinc"
version = "0.1.0"
edition = "2021"
publish = false

[dependencies]
anyhow = "=1.0.104"
pyo3 = "=0.29.3"
scraper = "=0.27.0"
serde = { version = "=1.0.229", features = ["derive"] }
serde_json = "=1.0.151"
sqlx = { version = "=0.9.0", default-features = false, features = ["any", "runtime-tokio"] }
tokio = { version = "=1.53.2", features = ["rt-multi-thread", "io-std", "io-util", "macros", "sync"] }
tower-lsp = "=0.20.0"
wreq = "=0.15.3"
wreq-util = "=0.1.0"
