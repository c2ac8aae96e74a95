[package]
name = "financial_data"
version = "0.1.0"
edition = "2021"
publish = false

[dependencies]
csv = "*"
time = { version = "*", features = ["serde-human-readable", "parsing", "formatting", "macros"] }
axum = "*"
axum-sqlx-tx = "*"
sqlx = { version = "*", default-features = false, features = ["runtime-tokio", "postgres", "time", "derive"] }
tokio = { version = "*", features = ["rt-multi-thread", "macros", "sync", "time"] }
reqwest = { version = "*", default-features = false, features = ["rustls-tls"] }
serde = { version = "*", features = ["derive"] }
log = "*"
pretty_env_logger = "*"
