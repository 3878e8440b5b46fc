[package]
name = "iso_engine"
version = "0.1.0"
edition = "2021"
publish = false

[dependencies]
macroquad = "0.4"
miniquad = "0.4"
