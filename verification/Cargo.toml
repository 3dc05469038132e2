[package]
name = "raytrace"
version = "0.1.0"
edition = "2021"
publish = false

[dependencies]
base64 = "=0.23.1"
image = { version = "=0.25.10", default-features = false, features = ["png"] }
