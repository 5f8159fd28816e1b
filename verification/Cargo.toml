[package]
name = "presence_tracker"
version = "0.1.0"
edition = "2021"
publish = false

[dependencies]
sha2 = "0.10"
serde_json = "1"
serde = { version = "1", features = ["derive"] }
toml = "*"
anyhow = "1"
log = "0.4"
env_logger = "*"
rand = "*"
tokio = { version = "1", features = ["full"] }
axum = { version = "*", features = ["ws"] }
axum-server = { version = "*", features = ["tls-rustls"] }
rumqttc = "*"
rustls = "*"
tower-http = { version = "*", features = ["cors"] }
futures-util = "0.3"
esp-idf-svc = "*"
embedded-svc = "*"
