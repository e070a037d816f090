[package]
name = "bgl_path_validator"
version = "0.1.0"
edition = "2021"
publish = false

[dependencies]
solana-program = "*"
anchor-lang = "*"
