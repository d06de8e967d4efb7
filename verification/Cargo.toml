[package]
name = "audio_fingerprint"
version = "0.1.0"
edition = "2021"
publish = false

[dependencies]
rand = "=0.8.8"
realfft = "=3.5.0"
num-complex = "=0.4.6"
symphonia = { version = "=0.5.5", features = ["mp3"] }
rodio = { version = "0.20", default-features = false }
tokio = { version = "1", features = ["process", "fs", "io-util"] }
cot = "0.4"
askama = "0.14"
serde = "1"
serde_json = "1"
multer = "3"
futures-util = "0.3"
http-body-util = "0.1"
