[package]
name = "climate_controller"
version = "0.1.0"
edition = "2021"
publish = false

[dependencies]
axum = "0.8"
clap = { version = "4", features = ["derive"] }
color-eyre = "0.6"
derive_more = { version = "2", features = ["constructor", "deref", "display", "from"] }
futures = "0.3"
never = "0.1"
rppal = "0.22"
schemars = "0.8"
serde = { version = "1", features = ["derive"] }
serde_json = "1"
serde_yaml = "0.9"
time = { version = "0.3", features = ["local-offset"] }
tokio = { version = "1", features = ["full"] }
tracing = "0.1"
tracing-subscriber = { version = "0.3", features = ["env-filter"] }
