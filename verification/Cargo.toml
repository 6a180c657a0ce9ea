[package]
name = "vnc_client"
version = "0.1.0"
edition = "2021"
publish = false

[dependencies]
aes = "=0.8.4"
des = "0.8"
flate2 = "=1.1.10"
hmac = "=0.12.1"
jpeg-decoder = { version = "0.3", default-features = false }
log = "=0.4.35"
md5 = "=0.7.0"
num-bigint = { version = "=0.4.8", features = ["rand"] }
pbkdf2 = "=0.12.2"
rand = "=0.8.8"
rsa = "=0.9.10"
rustls = { version = "=0.23.46", features = ["ring"] }
sasl = "=0.5.2"
serde = { version = "=1.0.229", features = ["derive"] }
serde_json = "=1.0.154"
sha1 = "=0.10.7"
sha2 = "=0.10.9"
socket2 = "=0.5.10"
thiserror = "=1.0.69"
tungstenite = "=0.24.0"
webpki-roots = "=0.26.11"
