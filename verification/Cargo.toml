[package]
name = "echonet"
version = "0.1.0"
edition = "2021"
publish = false

[dependencies]
esp-idf-svc = "0.51"
heapless = "0.8"
log = "0.4"
