[package]
name = "dsp_engine"
version = "0.1.0"
edition = "2021"
publish = false

[dependencies]
cpal = "0.15"
ringbuf = "0.3"
serde = { version = "1", features = ["derive"] }
serde_json = "1"
tungstenite = "0.21"
