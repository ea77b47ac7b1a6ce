[package]
name = "rag_core"
version = "0.1.0"
edition = "2021"
publish = false

[dependencies]
pdf-extract = "*"
uuid = { version = "*", features = ["v4"] }
axum = { version = "*", features = ["multipart"] }
tokio = { version = "*", features = ["full"] }
tower-http = { version = "*", features = ["cors"] }
serde = { version = "*", features = ["derive"] }
serde_json = "*"
chrono = { version = "*", features = ["serde"] }
sqlx = { version = "*", default-features = false, features = ["runtime-tokio-rustls", "postgres", "uuid", "chrono", "macros"] }
elasticsearch = "=8.19.0-alpha.1"
gemini-rust = "*"
futures-util = "*"
reqwest = { version = "*", features = ["json"] }
anyhow = "*"
thiserror = "*"
tracing = "*"
tracing-subscriber = { version = "*", features = ["env-filter"] }
dotenv = "*"
