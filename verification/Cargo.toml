[package]
name = "rom_atlas"
version = "0.1.0"
edition = "2021"
publish = false

[dependencies]
encoding_rs = "0.8"
indicatif = "0.17"
