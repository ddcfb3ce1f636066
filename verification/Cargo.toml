[package]
name = "mini_http"
version = "0.1.0"
edition = "2021"
publish = false

[dependencies]
anyhow = "1"
rustls = { version = "0.23", default-features = false, features = ["ring", "std", "tls12"] }
url = "2"
webpki-roots = "1"
