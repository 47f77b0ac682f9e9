[package]
name = "artisan-http"
version = "0.18.0"
edition = "2021"
publish = false

[dependencies]
quick-xml = "=0.42.0"
serde = { version = "=1.0.229", features = ["derive"] }
serde_json = "=1.0.154"
reqwest = { version = "=0.13.5", default-features = false }
thiserror = "=2.0.21"
async-trait = "=0.1.92"

[dev-dependencies]
http = "=1.5.0"
