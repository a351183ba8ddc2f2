[package]
name = "rkazumi_core"
version = "0.1.0"
edition = "2021"
publish = false

[dependencies]
serde = { version = "=1.0.229", features = ["derive"] }
serde_json = "=1.0.154"
scraper = "=0.29.0"
ego-tree = "=0.11.1"
roxmltree = "=0.21.2"
reqwest = { version = "=0.12.28", default-features = false, features = ["rustls-tls"] }
