[package]
name = "glass_shatter"
version = "0.1.0"
edition = "2021"
publish = false

[dependencies]
fastrand = "*"
voronator = "*"
