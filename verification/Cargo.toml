[package]
name = "zeltlager_website"
version = "0.1.0"
edition = "2021"
publish = false

[dependencies]
time = "*"
notify-debouncer-full = "*"
rayon = "*"
