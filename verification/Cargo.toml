[package]
name = "bidrum"
version = "0.1.0"
edition = "2021"
publish = false

[dependencies]
num-rational = "=0.4.2"
serde = { version = "=1.0.229", features = ["derive"] }
serde_json = "=1.0.154"
device_query = "=4.0.1"
serialport = "=4.10.1"
btleplug = "=0.11.8"
tokio = { version = "=1.54.1", features = ["rt", "rt-multi-thread", "time"] }
futures = "=0.3.34"
uuid = "=1.29.1"
clap = { version = "4", features = ["derive"] }
