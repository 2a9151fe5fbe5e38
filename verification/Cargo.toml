[package]
name = "plc_xmlgen"
version = "0.1.0"
edition = "2021"
publish = false

[dependencies]
chrono = "*"
xml-rs = "*"
env_logger = "*"
