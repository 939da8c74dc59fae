[package]
name = "cerberus_flex_gateway"
version = "0.6.0"
edition = "2021"
publish = false

[dependencies]
anyhow = "1"
chrono = "0.4"
futures = "0.3"
globset = "0.4"
hex = "0.4"
hmac = "0.12"
pdk = "1.8"
regex-lite = "0.1"
serde = { version = "1", features = ["derive"] }
serde_json = "1"
sha2 = "0.10"
url = "2"
