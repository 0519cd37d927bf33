[package]
name = "hamesh"
version = "0.1.0"
edition = "2021"
publish = false

[dependencies]
base64 = "=0.21.7"
sha256 = "=1.6.0"
regex = "=1.13.1"
serde = { version = "=1.0.229", features = ["derive"] }
serde_json = "=1.0.154"
tokio = { version = "=1.54.1", features = ["full"] }
futures = "=0.3.34"
log = "=0.4.35"
simple_logger = "=4.3.3"
quinn = "0.10"
h3 = "0.0.3"
h3-quinn = "0.0.4"
http = "0.2"
rustls = { version = "0.21", features = ["dangerous_configuration"] }
rustls-native-certs = "0.6"
bytes = "1"
rand = "0.8"
tracing = "0.1"
