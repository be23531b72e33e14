[package]
name = "ai_shepherd"
version = "0.1.0"
edition = "2021"
publish = false

[dependencies]
sha2 = "0.10"
hex = "0.4"
serde = { version = "1", features = ["derive"] }
serde_json = "1"
chrono = "0.4"
walkdir = "2"
num_cpus = "1"
once_cell = "1"
hound = "3"
futures-util = "0.3"
tokio = { version = "1", features = ["rt", "sync", "macros"] }
reqwest = { version = "0.12", default-features = false, features = ["json", "multipart", "stream", "rustls-tls"] }
