[package]
name = "oc_http"
version = "0.1.0"
edition = "2021"
publish = false

[dependencies]
httparse = "1"
sha1 = "0.10"
base64 = "0.13"
cookie = { version = "0.16", features = ["percent-encode"] }
async-std = "1"
futures = "0.3"
log = "0.4"
