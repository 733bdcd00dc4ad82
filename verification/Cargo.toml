[package]
name = "proc_art"
version = "0.1.0"
edition = "2021"
publish = false

[dependencies]
noise = "*"
tiny-skia = "*"
clap = { version = "*", features = ["derive"] }
rand = "0.8"
rand_chacha = "0.3"
