[package]
name = "riptide_core"
version = "0.1.0"
edition = "2021"
publish = false

[dependencies]
lru = "*"
tokio = { version = "*", features = ["full"] }
axum = "*"
bytes = "*"
futures = "*"
async-trait = "*"
serde = { version = "*", features = ["derive"] }
thiserror = "*"
tracing = "*"
