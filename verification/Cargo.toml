[package]
name = "rust_scraping"
version = "0.1.0"
edition = "2021"
publish = false

[dependencies]
scraper = "=0.18.1"
reqwest = { version = "=0.11.27", default-features = false, features = ["gzip", "rustls-tls"] }
reqwest-middleware = "=0.2.5"
reqwest-retry = "=0.2.3"
tokio = { version = "=1.54.1", features = ["macros", "rt-multi-thread"] }
futures = "=0.3.34"
indicatif = "0.17"
serde = { version = "=1.0.229", features = ["derive"] }
serde_json = "=1.0.154"
