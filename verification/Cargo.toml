[package]
name = "my_service_bus"
version = "0.1.0"
edition = "2021"
publish = false

[dependencies]
zip = { version = "=9.2.2", default-features = false, features = ["deflate"] }
tokio = { version = "=1.54.1", features = ["full"] }
tonic = "*"
