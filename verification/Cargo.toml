[package]
name = "autovirt"
version = "0.1.0"
edition = "2021"
publish = false

[dependencies]
rand = "=0.8.8"
serde = { version = "=1.0.229", features = ["derive"] }
serde_json = "=1.0.154"
anyhow = "=1.0.104"
lazy_static = "=1.5.1"
tokio = { version = "=1.54.1", features = ["macros", "rt-multi-thread", "time", "sync"] }
poise = { version = "=0.6.2", default-features = false, features = ["cache"] }
serenity = { version = "=0.12.5", default-features = false, features = ["rustls_backend"] }
sqlx = { version = "=0.7.4", default-features = false, features = ["runtime-tokio", "postgres", "migrate"] }
tracing = "=0.1.44"
tracing-subscriber = { version = "=0.3.23", default-features = false, features = ["fmt", "std"] }
mexprp = { version = "=0.3.1", default-features = false }
nekosbest = "=0.21.6"
reqwest = "=0.10.10"
urban-rs = "=0.1.1"
