[package]
name = "satip_discovery"
version = "0.1.0"
edition = "2021"
publish = false

[dependencies]
tokio = { version = "*", features = ["full"] }

[dev-dependencies]
httparse = "*"
minidom = "*"
http = "*"
