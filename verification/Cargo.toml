[package]
name = "stats_rs"
version = "1.0.0"
edition = "2021"
publish = false

[dependencies]
anyhow = "*"
axum = "*"
csv = "*"
dotenvy = "*"
schemars = "*"
serde = { version = "*", features = ["derive"] }
serde_json = "*"
thiserror = "*"
tokio = { version = "*", features = ["macros", "rt-multi-thread", "net", "signal"] }
tower-http = { version = "*", features = ["trace", "compression-gzip", "cors", "timeout"] }
tracing = "*"
tracing-subscriber = { version = "*", features = ["env-filter", "fmt"] }
