[package]
name = "zynthos"
version = "0.1.0"
edition = "2021"
publish = false

[dependencies]
pc-keyboard = "=0.7.0"
spin = "=0.12.3"
lazy_static = "=1.5.1"
x86_64 = "=0.14.13"
