[package]
name = "lnd_client"
version = "0.1.0"
edition = "2021"
publish = false

[dependencies]
hex = "=0.4.3"
hyper = { version = "=1.12.0", features = ["client", "http2"] }
hyper-openssl = { version = "=0.10.3", features = ["client-legacy"] }
hyper-util = { version = "=0.1.21", features = ["client-legacy", "http2", "tokio"] }
openssl = "=0.10.82"
prost = "=0.14.4"
tonic = "=0.14.9"
tonic-openssl = "=0.3.0"
tower = "=0.5.3"
