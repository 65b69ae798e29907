[package]
name = "w5500"
version = "0.1.0"
edition = "2021"
publish = false

[dependencies]
bit_field = "0.10.1"
embedded-hal = "=0.2.7"
embedded-nal = "=0.2.0"
nb = "=1.1.0"
