[package]
name = "target_iceberg"
version = "0.1.0"
edition = "2021"
publish = false

[dependencies]
anyhow = "=1.0.104"
arrow = "=53.4.1"
async-trait = "=0.1.92"
chrono = "=0.4.39"
clap = { version = "=4.6.7", features = ["derive"] }
dashtool-common = "=0.2.0"
futures = "=0.3.34"
iceberg-rust = "=0.6.1"
iceberg-rust-spec = "=0.6.1"
jsonschema = { version = "=0.17.1", default-features = false }
object_store = { version = "=0.11.2", features = ["aws"] }
serde = { version = "=1.0.229", features = ["derive"] }
serde_json = { version = "=1.0.154", features = ["preserve_order"] }
singer = "=0.3.0"
thiserror = "=1.0.69"
tokio = { version = "=1.54.1", features = ["full"] }
tracing = "=0.1.44"
tracing-subscriber = { version = "0.3", features = ["env-filter"] }
