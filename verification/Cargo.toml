[package]
name = "radicle_proxy_client"
version = "0.1.0"
edition = "2021"
publish = false

[dependencies]
ureq = { version = "2", features = ["cookies"] }
url = "2"
cookie = "0.18"
cookie_store = "0.21"
clap = { version = "4", features = ["derive"] }
rpassword = "7"
secrecy = "0.8"
tracing = "0.1"
tracing-subscriber = { version = "0.3", features = ["env-filter"] }

[dev-dependencies]
serde_json = "1"
