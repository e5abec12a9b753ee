[package]
name = "naviarr"
version = "0.1.0"
edition = "2021"
publish = false

[dependencies]
base64 = "=0.22.1"
hmac = "=0.12.1"
if-addrs = "*"
md5 = "=0.7.0"
rand = "=0.9.5"
regex = "=1.13.1"
roxmltree = "=0.20.0"
serde = { version = "=1.0.229", features = ["derive"] }
serde_json = "=1.0.154"
sha1 = "=0.10.7"
url = "=2.5.8"
walkdir = "=2.5.0"
