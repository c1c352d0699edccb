[package]
name = "simple_rust_downloader"
version = "0.1.0"
edition = "2021"
publish = false

[dependencies]
scraper = "*"
jpeg-to-pdf = "0.2.3"
ureq = "2"
reqwest = { version = "0.12", default-features = false, features = ["rustls-tls"] }
tokio = { version = "1", features = ["rt-multi-thread", "macros"] }
futures = "0.3"
colored = "2"
notify-rust = "4"
