[package]
name = "whisper_desktop"
version = "0.1.0"
edition = "2021"
publish = false

[dependencies]
serde = { version = "=1.0.229", features = ["derive"] }
serde_json = "=1.0.154"
symphonia = { version = "=0.5.5", features = ["all"] }
whisper-rs = "=0.14.4"
reqwest = { version = "=0.12.28", features = ["stream"] }
futures-util = "=0.3.34"
tokio = { version = "=1.54.1", features = ["fs", "io-util", "rt"] }
