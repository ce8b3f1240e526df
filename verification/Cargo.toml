[package]
name = "ipwatcher"
version = "0.2.0"
edition = "2021"
publish = false

[dependencies]
anyhow = "=1.0.104"
lettre = { version = "=0.11.23", default-features = false, features = ["smtp-transport", "builder", "tokio1", "tokio1-rustls-tls"] }
rand = "=0.10.3"
reqwest = { version = "=0.13.5", default-features = false, features = ["rustls"] }
rusqlite = { version = "=0.40.2", features = ["bundled"] }
serde = { version = "*", features = ["derive"] }
time = { version = "=0.3.55", features = ["formatting"] }
tokio = { version = "=1.53.2", features = ["rt-multi-thread", "macros", "time", "signal"] }
toml = "=1.1.7"
tracing = "*"
tracing-subscriber = { version = "*", features = ["env-filter", "fmt"] }
