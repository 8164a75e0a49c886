[package]
name = "embedded_text"
version = "0.1.0"
edition = "2021"
publish = false

[dependencies]
az = "1"
embedded-graphics = "0.7.1"
