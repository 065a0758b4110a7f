[package]
name = "threema"
version = "0.1.0"
edition = "2021"
publish = false

[dependencies]
sodiumoxide = "=0.2.7"
pbkdf2 = { version = "=0.11.0", default-features = false }
hmac = "=0.12.1"
sha2 = "=0.10.9"
serde = { version = "=1.0.229", features = ["derive"] }
serde_json = "=1.0.154"
base64 = "=0.13.1"
clap = "=4.6.7"
log = "=0.4.34"
pretty_env_logger = "=0.4.0"
ureq = { version = "=2.6.2", features = ["json", "tls"] }
rustls = "=0.20.9"
webpki = "=0.22.4"
webpki-roots = "=0.22.6"
