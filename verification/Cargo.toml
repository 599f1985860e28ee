[package]
name = "tiny_http"
version = "0.1.0"
edition = "2021"
publish = false

[dependencies]
ascii = "1"
chunked_transfer = "1"
httpdate = "1"
