[package]
name = "mdds"
version = "0.1.0"
edition = "2021"
publish = false

[dependencies]
anyhow = "=1.0.104"
axum = "=0.8.9"
axum-streams = { version = "=0.30.0", features = ["json"] }
chrono = { version = "=0.4.45", features = ["serde"] }
clap = { version = "=4.6.7", features = ["derive", "env"] }
dotenv = "=0.15.0"
futures = "=0.3.34"
http = "=1.5.0"
serde = { version = "=1.0.229", features = ["derive"] }
tokio = { version = "=1.53.2", features = ["full"] }
tower = "=0.5.3"
tower-http = { version = "=0.7.1", features = ["cors", "trace"] }
tracing = "=0.1.44"
tracing-subscriber = "=0.3.23"
