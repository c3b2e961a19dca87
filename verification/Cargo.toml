[package]
name = "notion2pandoc"
version = "0.1.0"
edition = "2021"
publish = false

[dependencies]
async-recursion = "1"
chrono = { version = "0.4", features = ["serde"] }
clap = { version = "4", features = ["derive"] }
futures = "0.3"
itertools = "0.10"
openssl-probe = "0.1"
regex = "1"
reqwest = { version = "0.11", features = ["json"] }
scraper = "*"
serde = { version = "1", features = ["derive"] }
serde_json = "1"
tokio = { version = "1", features = ["full"] }
uuid = { version = "1", features = ["v4", "serde"] }
