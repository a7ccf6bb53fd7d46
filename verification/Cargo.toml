[package]
name = "kowalski"
version = "0.1.0"
edition = "2021"
publish = false

[dependencies]
anyhow = "1"
dotenvy = "0.15"
parking_lot = "0.12"
serenity = { version = "0.11", features = ["collector"] }
sqlx = { version = "0.6", features = ["postgres", "runtime-tokio-rustls"] }
tokio = { version = "1", features = ["rt-multi-thread", "macros", "sync", "time"] }
tracing = "0.1"
tracing-log = "0.1"
tracing-subscriber = "0.3"
