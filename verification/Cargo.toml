[package]
name = "async_operators"
version = "0.1.0"
edition = "2021"
publish = false

[dependencies]
timely = "=0.21.5"
differential-dataflow = "=0.15.4"
futures-util = "=0.3.34"
tokio = { version = "=1.54.1", features = ["rt", "sync", "macros"] }
chrono = { version = "=0.4.45", features = ["serde"] }
chrono-tz = "*"
serde = { version = "=1.0.229", features = ["derive"] }
