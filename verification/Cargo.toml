[package]
name = "jouch"
version = "0.1.0"
edition = "2021"
publish = false

[dependencies]
anyhow = "=1.0.104"
chrono = { version = "=0.4.45", features = ["serde"] }
enum-utils = "=0.1.2"
image = { version = "=0.25.10", default-features = false, features = ["png", "jpeg", "gif", "webp"] }
rand = "=0.9.5"
reqwest = { version = "=0.12.28", default-features = false, features = ["rustls-tls"] }
ron = "=0.8.1"
serde = { version = "=1.0.229", features = ["derive"] }
serenity = { version = "=0.12.5", features = ["collector"] }
sqlx = { version = "=0.8.6", default-features = false, features = ["runtime-tokio", "postgres", "macros", "migrate", "chrono", "json", "derive"] }
tokio = { version = "=1.54.1", features = ["macros", "rt-multi-thread", "time"] }
tracing = "=0.1.44"
webp = "=0.3.1"
