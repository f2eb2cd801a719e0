[package]
name = "rustycogs"
version = "0.1.0"
edition = "2021"
publish = false

[dependencies]
url = "=2.5.8"
async-tiff = "=0.4.0"
object_store = { version = "=0.14.2", features = ["aws", "gcp", "azure", "http"] }
tokio = { version = "=1.54.1", features = ["rt-multi-thread"] }
futures = "=0.3.34"
extendr-api = "=0.7.1"
reqwest = { version = "=0.13.5", default-features = false, features = ["rustls"] }
