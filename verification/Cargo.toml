[package]
name = "session"
version = "0.1.0"
edition = "2021"
publish = false

[dependencies]
url = "2"
base64 = "0.22"
regex = "1"
scraper = "*"
serde = { version = "1", features = ["derive"] }
serde_json = "1"
tokio = { version = "1", features = ["full"] }
tokio-util = "0.7"
libc = "0.2"
ulid = "1"
anyhow = "1"
tracing = "0.1"
async-trait = "0.1"
futures = "0.3"
image = { version = "0.25", default-features = false, features = ["jpeg", "png"] }
ignore = "0.4"
grep-regex = "0.1"
grep-searcher = "0.1"

[dev-dependencies]
tempfile = "3"
