[package]
name = "source_demo_tool"
version = "0.9.1"
edition = "2021"
publish = false

[dependencies]
buf_redux = "*"
ilog = "*"
async-channel = "*"
