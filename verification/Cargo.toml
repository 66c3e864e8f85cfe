[package]
name = "tunnel_control"
version = "0.1.0"
edition = "2021"
publish = false

[dependencies]
shadowsocks = "*"
tokio = { version = "*", features = ["full"] }
futures = "*"
log = "*"
pin-project = "*"
