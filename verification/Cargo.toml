[package]
name = "chicago_data_bot"
version = "0.1.0"
edition = "2021"
publish = false

[dependencies]
anyhow = "1"
chrono = "0.4"
chrono-tz = "*"
clap = { version = "4", features = ["derive", "env"] }
dotenvy = "*"
fontdue = "*"
fs2 = "*"
html2text = "*"
png = "*"
reqwest = { version = "*", default-features = false, features = ["blocking", "json", "rustls-tls"] }
rusqlite = { version = "*", features = ["bundled", "backup"] }
serde = { version = "1", features = ["derive"] }
serde_json = "1"
sha2 = "*"
tempfile = "*"
unicode-segmentation = "*"
