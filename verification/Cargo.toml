[package]
name = "ffgl_sources"
version = "0.1.0"
edition = "2021"
publish = false

[dependencies]
ffgl-core = "*"
gl = "0.14"
gl_loader = "0.1"
core-foundation = "0.10"
core-graphics = "0.24"
core-text = "20.1"
