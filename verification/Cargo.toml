[package]
name = "oxidns"
version = "0.1.0"
edition = "2021"
publish = false

[dependencies]
ahash = "=0.8.12"
prost = "=0.14.4"
base64 = "=0.23.1"
serde_json = "=1.0.154"
thiserror = "=2.0.21"
http = "1"
