[package]
name = "ferri_log"
version = "0.1.0"
edition = "2021"
publish = false

[dependencies]
anyhow = "*"
chrono = "*"
notify = "*"
serde = { version = "*", features = ["derive"] }
serde_json = "*"
skytable = "0.7"
sqlx = { version = "0.7", default-features = false, features = ["runtime-tokio-rustls", "postgres", "chrono", "uuid"] }
tokio = { version = "*", features = ["rt-multi-thread", "sync", "macros", "time"] }
uuid = { version = "*", features = ["v4"] }
