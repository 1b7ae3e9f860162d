[package]
name = "tedge_dot_sdk"
version = "0.1.0"
edition = "2021"
publish = false

[dependencies]
rumqttc = { version = "0.24", default-features = false }
serde = { version = "1", features = ["derive"] }
serde_json = "1"
time = { version = "0.3", features = ["formatting", "macros"] }
tokio = { version = "1", features = ["rt", "rt-multi-thread", "macros", "sync", "time", "signal"] }
toml = "0.8"
toml_edit = "0.22"
tracing = "0.1"
