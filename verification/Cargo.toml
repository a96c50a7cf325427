[package]
name = "playfusion_cart_ui"
version = "0.1.0"
edition = "2021"
publish = false

[dependencies]
dirs = "*"
gilrs = "*"
macroquad = "0.4"
