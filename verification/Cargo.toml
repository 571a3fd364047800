[package]
name = "ct_scraper"
version = "0.1.0"
edition = "2021"
publish = false

[dependencies]
futures = "*"
mongodb = "*"
reqwest = { version = "*", default-features = false }
serde = { version = "*", features = ["derive"] }
serde_json = "*"
tokio = { version = "*", features = ["rt-multi-thread", "macros", "time", "sync"] }
