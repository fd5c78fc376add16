[package]
name = "solana_indexer"
version = "0.1.0"
edition = "2021"
publish = false

[dependencies]
chrono = "0.4"
serde = { version = "1", features = ["derive"] }
serde_json = "1"
sqlx = { version = "0.8", default-features = false, features = ["runtime-tokio", "postgres", "chrono", "uuid", "json"] }
uuid = "1"
reqwest = { version = "0.12", default-features = false }
thiserror = "1"
tracing = "0.1"
dotenvy = "0.15"
config = "0.14"
