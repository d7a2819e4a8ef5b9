[package]
name = "kbc-core"
version = "0.1.0"
edition = "2021"
publish = false

[dependencies]
unicode-normalization = "=0.1.26"
chrono = { version = "=0.4.45", default-features = false, features = ["std", "clock"] }
sha2 = "=0.10.9"
md-5 = "=0.10.6"
hmac = "=0.12.1"
aes = "=0.8.4"
ecb = { version = "=0.1.2", features = ["alloc"] }
cipher = { version = "=0.4.4", features = ["alloc", "block-padding"] }
getrandom = "=0.3.4"
base64 = "=0.22.1"
serde = { version = "=1.0.229", features = ["derive"] }
serde_json = "=1.0.154"
url = "2"
