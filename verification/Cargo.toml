[package]
name = "synagraph"
version = "0.1.0"
edition = "2021"
publish = false

[dependencies]
uuid = { version = "=1.27.0", features = ["v4", "v5", "serde"] }
serde = { version = "=1.0.229", features = ["derive"] }
serde_json = "=1.0.151"
chrono = { version = "=0.4.45", features = ["serde"] }
tokio = { version = "=1.53.2", features = ["full"] }
axum = "=0.8.9"
sqlx = { version = "=0.9.0", default-features = false, features = ["runtime-tokio", "postgres", "uuid", "chrono", "json"] }
anyhow = "=1.0.104"
dotenvy = "=0.15.7"
async-trait = "=0.1.92"
