[package]
name = "bidi"
version = "0.1.0"
edition = "2021"

[dependencies]
unicode-bidi = "*"
