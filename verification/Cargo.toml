[package]
name = "httpd_core"
version = "0.1.0"
edition = "2021"
publish = false

[dependencies]
async-std = "*"
futures = "*"
pin-project = "*"
chrono = "*"
