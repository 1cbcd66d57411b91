[package]
name = "ghtodep"
version = "0.1.0"
edition = "2021"
publish = false

[dependencies]
rust-crypto = "0.2"
flate2 = "*"
scraper = "*"
clap = "*"
dirs = "*"
reqwest = { version = "*", default-features = false, features = ["rustls-tls"] }
tokio = { version = "*", features = ["rt-multi-thread", "macros", "time"] }
futures = "*"
indicatif = "*"
prettytable-rs = "*"
serde = { version = "*", features = ["derive"] }
serde_json = "*"
