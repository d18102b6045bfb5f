[package]
name = "vizia_core"
version = "0.1.0"
edition = "2021"
publish = false

[dependencies]
vizia_id = "=0.4.0"
vizia_storage = "=0.4.0"
