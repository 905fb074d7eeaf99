[package]
name = "playqueue"
version = "0.1.0"
edition = "2021"
publish = false

[dependencies]
serenity = { version = "0.11", default-features = false, features = ["client", "standard_framework", "voice", "http", "gateway", "rustls_backend", "cache", "model"] }
songbird = "0.3"
tokio = { version = "1", features = ["macros", "rt-multi-thread", "signal", "sync", "process"] }
tracing-subscriber = "0.3"
