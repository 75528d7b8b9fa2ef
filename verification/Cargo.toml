[package]
name = "lol_player"
version = "0.1.0"
edition = "2021"
publish = false

[dependencies]
gtk4 = "*"
rodio = "*"
walkdir = "2"
