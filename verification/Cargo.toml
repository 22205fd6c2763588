[package]
name = "busa_http"
version = "0.1.0"
edition = "2021"
publish = false

[dependencies]
memchr = "2"
smol = "2"
