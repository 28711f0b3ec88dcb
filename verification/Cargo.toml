[package]
name = "support_portal"
version = "0.1.0"
edition = "2021"
publish = false

[dependencies]
anyhow = "=1.0.104"
chrono = "=0.4.45"
clap = { version = "=4.6.7", features = ["derive"] }
clap_complete = "=4.6.11"
config = "=0.15.27"
ctrlc = "=3.5.2"
http = "=1.5.0"
http-body-util = "0.1"
hyper = "1"
serde = { version = "=1.0.229", features = ["derive"] }
serde_json = "=1.0.154"
schemars = "0.8"
thiserror = "=2.0.21"
tokio = { version = "=1.54.1", features = ["macros", "rt-multi-thread"] }
tracing = "=0.1.44"
uuid = { version = "=1.29.0", features = ["v4"] }
newtype-uuid = { version = "=1.4.0", features = ["v4"] }
secrecy = "=0.10.3"
tap = "=1.0.1"
strum = { version = "=0.28.0", features = ["derive"] }
owo-colors = "=4.4.0"
slog = "=2.8.2"
slog-async = "=2.8.0"
tracing-subscriber = { version = "=0.3.23", features = ["env-filter", "json"] }
tracing-appender = "=0.2.5"
tracing-slog = "=0.4.0"
derive_builder = "=0.20.2"
