[package]
name = "http-extract"
version = "0.1.0"
edition = "2021"
publish = false

[dependencies]
http = "1"
mime = "0.3"
thiserror = "2"
axum = "0.8"
