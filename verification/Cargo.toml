[package]
name = "termirc"
version = "0.1.0"
edition = "2021"
publish = false

[dependencies]
anyhow = "1"
dirs = "*"
futures-util = "0.3"
indexmap = { version = "2", features = ["serde"] }
irc = { version = "1", default-features = false, features = ["tls-rust"] }
ratatui = "*"
serde = { version = "1", features = ["derive"] }
tokio = { version = "1", features = ["rt", "sync", "time", "macros", "net"] }
toml = { version = "*", features = ["preserve_order"] }
tracing = "0.1"
tracing-appender = "0.2"
tracing-subscriber = { version = "0.3", features = ["env-filter"] }
unicode-width = "0.2"
