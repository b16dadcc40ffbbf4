[package]
name = "pufferfish"
version = "0.1.0"
edition = "2021"
publish = false

[dependencies]
png-decoder = "*"
sdl2 = "*"
