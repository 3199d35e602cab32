[package]
name = "punchclock"
version = "0.1.0"
edition = "2021"
publish = false

[dependencies]
chrono = "0.4"
uuid = { version = "1", features = ["v4"] }
poem = "*"
poem-openapi = { version = "*", features = ["swagger-ui"] }
tokio = { version = "1", features = ["full"] }
serde = { version = "1", features = ["derive"] }
serde_json = "1"
serde_yaml = "*"
toml = "*"
tracing = "*"
tracing-subscriber = { version = "*", features = ["env-filter"] }
dotenvy = "*"
clap = { version = "4", features = ["derive", "env"] }
anyhow = "1"
dirs = "*"
dialoguer = "*"
reqwest = { version = "*", default-features = false, features = ["json", "rustls-tls"] }
crossterm = "*"
ratatui = "*"
