[package]
name = "memoir"
version = "0.1.0"
edition = "2021"
publish = false

[dependencies]
anyhow = "1"
arboard = { version = "3", default-features = false }
axum = "0.8"
chrono = { version = "0.4", features = ["serde"] }
clap = { version = "4", features = ["derive"] }
plist = "1"
pulldown-cmark = "0.13"
reqwest = { version = "0.12", default-features = false, features = ["json", "charset", "http2"] }
rusqlite = { version = "0.32", features = ["bundled", "chrono"] }
scraper = "0.23"
serde = { version = "1", features = ["derive"] }
serde_json = "1"
skim = "0.10"
tempfile = "3"
thiserror = "2"
tokio = { version = "1", features = ["full"] }
toml = "0.8"
tower-http = { version = "0.6", features = ["cors"] }
tracing = "0.1"
tracing-subscriber = { version = "0.3", features = ["env-filter"] }
url = "2"
