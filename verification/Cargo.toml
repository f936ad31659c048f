[package]
name = "wm_menus"
version = "0.1.0"
edition = "2021"
publish = false

[dependencies]
xdgkit = "*"
