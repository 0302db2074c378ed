[package]
name = "data_ai_orchestrator"
version = "0.1.0"
edition = "2021"
publish = false

[dependencies]
async-trait = "0.1"
futures = "0.3"
serde = { version = "1", features = ["derive"] }
serde_json = "1"
sha2 = "0.10"
sqlx-core = { version = "0.8", features = ["_rt-tokio", "json"] }
sqlx-postgres = { version = "0.8", features = ["json"] }
thiserror = "2"
tokio = { version = "1", features = ["rt", "sync", "time", "macros"] }
uuid = { version = "1", features = ["v4"] }
