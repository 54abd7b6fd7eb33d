[package]
name = "openstar_ads"
version = "0.1.0"
edition = "2021"
publish = false

[dependencies]
indexmap = "=2.14.2"
chrono = "=0.4.45"
bytemuck = "=1.25.2"
extended = "=0.2.0"
tokio = { version = "=1.54.1", features = ["full"] }
bytes = "=1.12.1"
tracing = "=0.1.44"
serde = { version = "=1.0.229", features = ["derive"] }
thiserror = "=2.0.21"
anyhow = "=1.0.104"
crossbeam-channel = "=0.5.17"
ads_client = "=2.0.1"
