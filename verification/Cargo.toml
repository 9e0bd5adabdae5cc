[package]
name = "pbtdl"
version = "0.1.0"
edition = "2021"
publish = false

[dependencies]
anyhow = "1"
async-trait = "0.1"
chromiumoxide = { version = "*", default-features = true }
clap = { version = "4", features = ["derive"] }
console = "*"
data-encoding = "2"
dialoguer = "*"
futures = "0.3"
scraper = "*"
serde = { version = "1", features = ["derive"] }
serde_json = "1"
tempfile = "3"
thiserror = "*"
tokio = { version = "1", features = ["full"] }
toml = "*"
url = { version = "2", features = ["serde"] }
