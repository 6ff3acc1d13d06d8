[package]
name = "anime_dl"
version = "0.1.0"
edition = "2021"
publish = false

[dependencies]
anyhow = "=1.0.104"
async-recursion = "=1.2.0"
base64 = "=0.21.7"
clap = "=2.34.0"
comfy-table = "=8.0.1"
cookie = "=0.18.2"
cruet = "=1.0.0"
ctrlc = "=3.5.2"
dialoguer = "=0.12.0"
difference = "=2.0.0"
http-cache-reqwest = "=0.16.0"
regex = "=1.13.1"
reqwest = { version = "=0.12.28", default-features = false, features = ["json", "rustls-tls"] }
reqwest-middleware = { version = "=0.4.2", features = ["json"] }
reqwest-retry = "0.7"
scraper = "=0.29.0"
serde = { version = "=1.0.229", features = ["derive"] }
serde-aux = "=4.7.0"
serde_json = "=1.0.154"
serde_yaml = "=0.9.34"
spinach = "=3.2.0"
term = "=1.2.1"
term-painter = "=0.4.0"
tokio = { version = "=1.54.1", features = ["macros", "rt-multi-thread"] }
url = "=2.5.8"
urlencoding = "=2.1.3"
