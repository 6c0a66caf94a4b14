[package]
name = "spc_mqtt"
version = "0.1.0"
edition = "2021"
publish = false

[dependencies]
scraper = "0.20"
serde_json = "1"
serde = { version = "1", features = ["derive"] }
clap = { version = "4", features = ["derive"] }
reqwest = { version = "0.12", default-features = false, features = ["rustls-tls"] }
rumqttc = { version = "0.24", default-features = false }
tokio = { version = "1", features = ["macros", "rt-multi-thread", "time", "sync"] }
tracing = "0.1"
tracing-subscriber = { version = "0.3", features = ["env-filter"] }
