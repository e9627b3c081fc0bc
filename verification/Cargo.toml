[package]
name = "packed_font"
version = "0.1.0"
edition = "2021"
publish = false

[dependencies]
embedded-graphics = "0.8"
embedded-graphics-core = "0.4"
skrifa = "*"
tiny-skia = "0.11"
anyhow = "1"
