[package]
name = "blog"
version = "0.1.0"
edition = "2021"
publish = false

[dependencies]
anyhow = "*"
axum = "*"
chrono = "=0.4.45"
comrak = "=0.56.0"
serde = { version = "*", features = ["derive"] }
tera = "=1.20.1"
tokio = { version = "*", features = ["full"] }
tower-http = { version = "*", features = ["fs", "trace"] }
tracing = "*"
xml-builder = "=0.6.0"
