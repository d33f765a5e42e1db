[package]
name = "embedded-mqttc"
version = "0.1.0"
edition = "2021"
publish = false

[dependencies]
heapless = "0.8"
mqttrs2 = "*"
embassy-sync = "*"
embassy-futures = "*"
embedded-io-async = "*"
embedded-nal-async = "*"
thiserror = "*"
tokio = { version = "1", features = ["net", "io-util", "time", "rt", "sync"] }
tracing = "*"
