[package]
name = "rsocks"
version = "0.1.0"
edition = "2021"
publish = false

[dependencies]
rand = "0.8"
tokio = { version = "1", features = ["full"] }
futures = "0.3"
log = "0.4"
simple_logger = "*"
serde = { version = "1", features = ["derive"] }
toml = "*"
pnet = "*"
