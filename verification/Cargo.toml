[package]
name = "ziti_intercept"
version = "0.1.0"
edition = "2021"
publish = false

[dependencies]
futures-util = { version = "0.3", features = ["sink"] }
ipnet = "2"
netstack-smoltcp = "0.2"
reqwest = { version = "0.12", default-features = false }
route_manager = "*"
serde = { version = "1", features = ["derive"] }
serde_json = "1"
thiserror = "2"
tokio = { version = "1", features = ["full"] }
tokio-util = "0.7"
tracing = "0.1"
