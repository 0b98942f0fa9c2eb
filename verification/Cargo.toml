[package]
name = "webcrawler"
version = "0.1.0"
edition = "2021"
publish = false

[dependencies]
url = "*"
scraper = "*"
dashmap = "*"
reqwest = { version = "*", default-features = false }
tokio = { version = "*", features = ["rt-multi-thread", "macros", "sync", "time"] }
clap = { version = "*", features = ["derive"] }
tracing = "*"
tracing-subscriber = "*"
