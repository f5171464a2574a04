[package]
name = "pq_utils"
version = "0.3.0"
edition = "2021"
publish = false

[dependencies]
clap = "=4.6.7"
parquet = { version = "=60.0.0", default-features = false }
prettytable-rs = "=0.10.0"
serde_json = "=1.0.151"

[dev-dependencies]
csv = "=1.4.0"
