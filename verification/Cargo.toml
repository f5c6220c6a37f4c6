[package]
name = "mailc"
version = "0.1.0"
edition = "2021"
publish = false

[dependencies]
anyhow = "=1.0.104"
async-imap = { version = "=0.10.4", default-features = false, features = ["runtime-tokio"] }
chrono = "=0.4.45"
crossterm = { version = "=0.28.1", features = ["event-stream"] }
directories = "=5.0.1"
futures = "=0.3.34"
futures-util = "=0.3.34"
keyring = { version = "=3.6.3", features = ["linux-native"] }
lettre = { version = "=0.11.23", default-features = false, features = ["builder", "smtp-transport", "tokio1", "tokio1-rustls", "ring", "rustls-native-certs"] }
mail-parser = "=0.9.4"
mime_guess = "=2.0.5"
notify = "=6.1.1"
ratatui = "=0.29.0"
rpassword = "=7.5.4"
rusqlite = { version = "=0.32.1", features = ["bundled"] }
rustls = { version = "=0.23.46", default-features = false, features = ["ring", "std", "logging", "tls12"] }
rustls-native-certs = "=0.8.5"
serde = { version = "=1.0.229", features = ["derive"] }
serde_json = "=1.0.154"
thiserror = "=2.0.21"
tokio = { version = "=1.54.1", features = ["full"] }
tokio-rustls = { version = "=0.26.6", default-features = false, features = ["ring", "logging", "tls12"] }
toml = "=0.8.23"
tracing = "=0.1.44"
tracing-appender = "=0.2.5"
tracing-subscriber = "=0.3.23"
