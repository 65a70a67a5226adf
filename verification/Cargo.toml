[package]
name = "delta_stream"
version = "0.30.0"
edition = "2021"
publish = false

[dependencies]
crc32fast = "1"
zstd = "*"
serde = { version = "1", features = ["derive"] }
serde_json = "1"
tokio = { version = "1", features = ["sync", "rt-multi-thread", "macros", "time", "net", "io-util"] }
tokio-stream = { version = "*", features = ["sync"] }
futures = "0.3"
async-trait = "*"
json-patch = "*"
dotenvy = "*"
rumqttc = "*"
async-nats = "*"
tokio-tungstenite = "*"
