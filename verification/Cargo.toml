[package]
name = "tinydocs"
version = "0.1.0"
edition = "2021"
publish = false

[dependencies]
regex = "=1.13.1"
scraper = { version = "=0.17.1", features = ["deterministic"] }
html-escape = "=0.2.15"
html2text = "=0.6.0"
url = "=2.5.8"
august = "=2.4.0"
tiktoken-rs = "=0.5.9"
tokio = { version = "=1.54.1", features = ["full"] }
reqwest = { version = "=0.11.27", default-features = false, features = ["json", "rustls-tls"] }
futures = "=0.3.34"
serde = { version = "=1.0.229", features = ["derive"] }
serde_json = "=1.0.154"
dotenv = "=0.15.0"
