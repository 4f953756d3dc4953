[package]
name = "portfolio_api"
version = "0.1.0"
edition = "2021"
publish = false

[dependencies]
ammonia = "4"
axum = "0.8"
axum-prometheus = "0.8"
base64 = "0.22"
ed25519-dalek = { version = "2", features = ["rand_core"] }
maud = { version = "0.27", features = ["axum"] }
pulldown-cmark = { version = "0.13", default-features = false, features = ["html"] }
rand_core = { version = "0.6", features = ["getrandom"] }
serde = { version = "1", features = ["derive"] }
serde_json = "1"
sha2 = "0.10"
tokio = { version = "1", features = ["full"] }
toml = "0.8"
tower-http = { version = "0.6", features = ["compression-full", "limit", "set-header", "timeout", "fs"] }
tracing = "0.1"
tracing-subscriber = { version = "0.3", features = ["json", "env-filter"] }
