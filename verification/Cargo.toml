[package]
name = "chat_core"
version = "0.1.0"
edition = "2021"
publish = false

[dependencies]
serde = { version = "=1.0.229", features = ["derive"] }
serde_json = "=1.0.151"
uuid = { version = "=1.27.0", features = ["v7", "serde"] }
chrono = "=0.4.45"
jsonwebtoken = "=11.1.0"
tokio = { version = "=1.53.2", features = ["macros", "rt-multi-thread", "sync", "time"] }
actix-web = "=4.15.0"
actix-ws = "=0.4.0"
deadpool-redis = "=0.23.1"
dotenvy = "=0.15.7"
