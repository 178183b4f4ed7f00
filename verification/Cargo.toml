[package]
name = "bluetooth_applet"
version = "0.1.0"
edition = "2021"
publish = false

[dependencies]
tokio = { version = "*", features = ["rt", "rt-multi-thread", "sync", "time", "macros"] }
futures = "*"
bluer = { version = "*", features = ["bluetoothd"] }
anyhow = "*"
tracing = "*"
