[package]
name = "meter_bridge"
version = "0.1.0"
edition = "2021"
publish = false

[dependencies]
dlms_cosem = "*"
smart_meter = "*"
webthing = "*"
serde_json = "*"
anyhow = "*"
either = "*"
hex = "*"
log = "*"
env_logger = "*"
serialport = "*"
actix-rt = "*"
