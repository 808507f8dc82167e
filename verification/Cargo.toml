[package]
name = "accept_encoding"
version = "0.2.0"
edition = "2021"
publish = false

[dependencies]
http = "*"
