[package]
name = "distracing"
version = "0.1.0"
edition = "2021"
publish = false

[dependencies]
base64 = "0.13"
rand = "0.8"
prost = "0.6"
prost-types = "0.6"
bytes = "0.5"
log = "0.4"
lazy_static = "1"
reqwest = { version = "0.11", default-features = false, features = ["blocking", "rustls-tls"] }
