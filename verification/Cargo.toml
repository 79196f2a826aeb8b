[package]
name = "flower_classifier"
version = "0.1.0"
edition = "2021"
publish = false

[dependencies]
image = "*"
anyhow = "*"
prost = "*"
tract-onnx = "*"
