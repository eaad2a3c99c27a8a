[package]
name = "binius_fri"
version = "0.1.0"
edition = "2021"
publish = false

[dependencies]
rand = "0.9"
subtle = "2.6"
