[package]
name = "skirmish"
version = "0.1.0"
edition = "2021"
publish = false

[dependencies]
colored = "=3.1.1"
env_logger = "=0.11.11"
log = "=0.4.34"
