[package]
name = "editor"
version = "0.1.0"
edition = "2021"
publish = false

[dependencies]
ropey = "1"
unicode-segmentation = "1"
unicode-width = "0.1"
lru = "0.7"
crossterm = "0.26"
