[package]
name = "seyeon_engine"
version = "0.1.0"
edition = "2021"
publish = false

[dependencies]
anyhow = "=1.0.104"
bon = "=3.10.2"
chrono = { version = "=0.4.45", features = ["serde"] }
clap = { version = "=4.6.7", features = ["derive"] }
dotenv = "=0.15.0"
lettre = "=0.11.23"
rand = "=0.10.3"
redis = "=1.7.1"
reqwest = { version = "=0.13.5", features = ["blocking", "json", "query"] }
serde = { version = "=1.0.229", features = ["derive"] }
serde_json = "=1.0.151"
thiserror = "=2.0.21"
