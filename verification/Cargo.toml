[package]
name = "tvguide"
version = "0.1.0"
edition = "2021"
publish = false

[dependencies]
quick-xml = "0.38"
strsim = "0.11"
url = "2"
regex = "1"
deunicode = "1"
rphonetic = "*"
chrono = "0.4"
axum = "0.8"
tokio = { version = "1", features = ["fs", "io-util", "rt", "sync"] }
serde = { version = "1", features = ["derive"] }
serde_json = "1"
log = "0.4"
