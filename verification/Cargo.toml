[package]
name = "kafkastats"
version = "0.1.0"
edition = "2021"
publish = false

[dependencies]
axum = "0.8"
axum-server = { version = "0.7", features = ["tls-rustls"] }
chrono = "0.4"
clap = { version = "4", features = ["derive", "env"] }
env_logger = "0.11"
influxdb-line-protocol = "2"
log = "0.4"
rdkafka = "*"
serde = { version = "1", features = ["derive"] }
smallvec = "1"
tokio = { version = "1", features = ["full"] }
