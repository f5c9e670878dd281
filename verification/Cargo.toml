[package]
name = "temp_monitor"
version = "0.1.0"
edition = "2021"
publish = false

[dependencies]
anyhow = "1"
log = "0.4"
one-wire-bus = "*"
ds18b20 = "*"
embedded-hal = "0.2"
esp-idf-svc = "*"
