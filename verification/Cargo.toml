[package]
name = "cobolrs"
version = "0.1.0"
edition = "2021"

[dev-dependencies]
conum = "*"
