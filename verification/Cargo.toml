[package]
name = "rgblitz"
version = "0.1.0"
edition = "2021"
publish = false

[dependencies]
chrono = "0.4"
heapless = "0.8"
color = "*"
log = "0.4"
esp-idf-svc = "*"
