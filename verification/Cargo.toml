[package]
name = "mqtt_analyzer"
version = "0.1.0"
edition = "2021"
publish = false

[dependencies]
hex = "0.4"
base64 = "0.13"
circular-queue = "0.2"
colored = "2"
clap = "2"
uuid = { version = "0.8", features = ["v4"] }
rumqtt = "0.31"
termion = "1"
