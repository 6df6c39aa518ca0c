[package]
name = "flowstation"
version = "0.1.0"
edition = "2021"
publish = false

[dependencies]
md5 = "0.7"
uuid = { version = "1", features = ["v4"] }
base64 = "0.22"
crossbeam-channel = "0.5"
serde_json = "1"
tungstenite = { version = "0.24", features = ["rustls-tls-native-roots"] }
rustls = "0.23"
rustls-native-certs = "0.7"
reqwest = { version = "0.12", default-features = false, features = ["blocking", "json", "rustls-tls"] }
