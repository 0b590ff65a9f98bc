[package]
name = "orange_yeoman"
version = "0.1.0"
edition = "2021"
publish = false

[dependencies]
markdown = "1"
serde = { version = "1", features = ["derive"] }
serde_json = "1"
notify = "8"
notify-debouncer-full = "0.7"
reqwest = { version = "0.12", default-features = false, features = ["rustls-tls"] }
rusqlite = { version = "*", features = ["bundled"] }
dirs = "*"
tracing = "0.1"
tracing-subscriber = { version = "0.3", features = ["env-filter"] }

[dev-dependencies]
tempfile = "3"
