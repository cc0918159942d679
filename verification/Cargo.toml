[package]
name = "clipd"
version = "0.2.0"
edition = "2021"
publish = false

[dependencies]
anyhow = "1"
bincode = "1.3"
dirs = "5"
emojis = "0.6"
gtk4 = { version = "0.9", features = ["v4_12"] }
libadwaita = { version = "0.7", features = ["v1_4"] }
rusqlite = { version = "0.31", features = ["bundled"] }
serde = { version = "1", features = ["derive"] }
serde_json = "1"
tokio = { version = "1", features = ["net", "io-util", "rt-multi-thread", "macros", "signal"] }
tracing = "0.1"
tracing-subscriber = { version = "0.3", features = ["env-filter"] }
wl-clipboard-rs = "0.9"
