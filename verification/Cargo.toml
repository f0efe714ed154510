[package]
name = "metric_sampler"
version = "0.1.0"
edition = "2021"
publish = false

[dependencies]
anyhow = "1"
async-channel = "*"
futures = "0.3"
influxdb2 = { version = "*", default-features = false }
log = "0.4"
serde = { version = "1", features = ["derive"] }
serde_json = "1"
simplelog = "0.12"
structopt = "0.3"
tokio = { version = "1", features = ["rt", "macros", "process", "io-util", "time"] }
