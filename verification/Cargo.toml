[package]
name = "libchip8"
version = "0.1.0"
edition = "2021"
publish = false

[dependencies]
rand = "*"
sdl2 = "*"
docopt = "*"
serde = { version = "*", features = ["derive"] }
