[package]
name = "cpsl"
version = "0.1.0"
edition = "2021"
publish = false

[dependencies]
sha2 = "=0.10.9"
hex = "=0.4.3"
memchr = "=2.8.3"
pulldown-cmark = { version = "=0.13.6", default-features = false, features = ["html"] }
quick-xml = "=0.42.0"
rtf-parser = "=0.4.3"
zip = { version = "=9.2.2", default-features = false, features = ["deflate"] }
calamine = "=0.38.0"
clap = { version = "=4.6.7", features = ["derive"] }
serde = { version = "=1.0.229", features = ["derive"] }
toml = "=1.1.8"
dirs = "=7.0.0"
md-5 = "=0.10.6"
hmac = "=0.12.1"
chrono = { version = "=0.4.45", default-features = false, features = ["std"] }
aes-gcm = "0.10"
uuid = { version = "1", features = ["v4", "v7"] }
email_address = "0.2"
csv = "1"
grep-regex = "0.1"
grep-matcher = "0.1"
globset = "0.4"
scraper = "*"
serde_json = "1"
jsonwebtoken = { version = "10", default-features = false, features = ["rust_crypto"] }
