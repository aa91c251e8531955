[package]
name = "rustgscholar"
version = "0.1.0"
edition = "2021"
publish = false

[dependencies]
urlencoding = "=2.1.3"
dirs = "=7.0.0"
serde = { version = "*", features = ["derive"] }
serde_json = "*"
reqwest = { version = "=0.13.5", default-features = false, features = ["json", "cookies", "query"] }
tokio = { version = "*", features = ["full"] }
futures = "*"
axum = "*"
clap = { version = "*", features = ["derive"] }
chrono = "*"
csv = "*"
regex = "*"
scraper = "*"
thiserror = "*"
anyhow = "*"
tracing = "*"
tracing-subscriber = { version = "*", features = ["env-filter"] }
url = "*"
rand = "*"
