[package]
name = "macroquad"
version = "0.1.0"
edition = "2021"
publish = false

[dependencies]
glam = "*"
miniquad = "*"
image = { version = "*", default-features = false, features = ["png", "jpeg"] }
zune-core = "*"
zune-jpeg = "*"
zune-png = "*"
quad-rand = "*"
fontdue = "*"
parking_lot = "*"
