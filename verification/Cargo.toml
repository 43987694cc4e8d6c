[package]
name = "vpx_extract"
version = "0.1.0"
edition = "2021"
publish = false

[dependencies]
serde_json = "=1.0.151"
vpin = "=0.26.10"
