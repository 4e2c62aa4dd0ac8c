[package]
name = "mmime"
version = "0.1.0"
edition = "2021"
publish = false

[dependencies]
charset = "0.1"
