[package]
name = "disney_infinity"
version = "0.1.0"
edition = "2021"
publish = false

[dependencies]
hidapi = { version = "=2.6.7", default-features = false, features = ["linux-native-basic-udev"] }
tokio = { version = "=1.54.1", features = ["rt", "rt-multi-thread", "sync", "macros"] }
