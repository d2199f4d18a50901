[package]
name = "multipart"
version = "0.1.0"
edition = "2021"
publish = false

[dependencies]
httparse = "1"
mime = "0.3"
twoway = "0.2"
futures = "0.3"
serde = "1"
serde_json = "1"
serde_plain = "1"
tempfile = "3"
