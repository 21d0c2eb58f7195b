[package]
name = "examfinder"
version = "0.1.0"
edition = "2021"
publish = false

[dependencies]
async-trait = "0.1"
axum = { version = "0.5", features = ["headers"] }
dotenvy = "0.15"
hyper = "0.14"
redis = { version = "0.22", features = ["tokio-comp"] }
regex = "1"
reqwest = { version = "0.11", default-features = false, features = ["rustls-tls"] }
serde = { version = "1", features = ["derive"] }
serde_json = "1"
thiserror = "1"
tokio = { version = "1", features = ["fs", "macros", "rt-multi-thread", "signal"] }
tower = "0.4"
tower-http = { version = "0.3", features = ["fs"] }
tracing = "0.1"
tracing-subscriber = "0.3"
