[package]
name = "wifisnipe"
version = "0.1.0"
edition = "2021"
publish = false

[dependencies]
bytes = "1"
chrono = "0.4"
futures = "0.3"
interoptopus = "0.14"
tokio = { version = "1", features = ["macros", "rt-multi-thread", "time"] }
tokio-serial = "5"
tokio-util = { version = "0.7", features = ["codec"] }
