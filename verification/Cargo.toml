[package]
name = "adb_rs"
version = "0.1.0"
edition = "2021"
publish = false

[dependencies]
futures-util = "0.3"
tokio = { version = "1", features = ["net", "io-util", "sync", "time"] }
tower = { version = "0.4", features = ["util"] }
