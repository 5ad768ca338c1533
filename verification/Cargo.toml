[package]
name = "gazette_scraper"
version = "0.1.0"
edition = "2021"
publish = false

[dependencies]
anyhow = "1"
async-trait = "0.1"
axum = "0.8"
chrono = { version = "0.4", features = ["serde"] }
futures = "0.3"
lopdf = "*"
maud = { version = "*", features = ["axum"] }
redis = "*"
redis-macros = "*"
regex = "1"
reqwest = { version = "0.12", features = ["json"] }
rust-s3 = "*"
select = "0.6"
serde = { version = "1", features = ["derive"] }
serde_json = "1"
sha1 = "0.10"
tokio = { version = "1", features = ["full"] }
tokio-stream = "0.1"
