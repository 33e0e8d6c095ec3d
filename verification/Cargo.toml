[package]
name = "reframe"
version = "0.1.0"
edition = "2021"
publish = false

[dependencies]
chrono = "=0.4.45"
colored = "=3.1.1"
env_logger = "=0.11.11"
heck = "=0.3.3"
log = "=0.4.34"
regex = "=1.13.1"
reqwest = { version = "=0.12.28", default-features = false, features = ["blocking", "rustls-tls"] }
rustyline = "=19.0.0"
serde = { version = "=1.0.229", features = ["derive"] }
serde_json = "=1.0.154"
toml = "=1.1.8"
zip = { version = "=9.1.0", default-features = false, features = ["deflate"] }
