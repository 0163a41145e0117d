[package]
name = "nand2tetris"
version = "0.1.0"
edition = "2021"
publish = false

[dependencies]
ariadne = "*"
chumsky = "*"
clap = { version = "4", features = ["derive"] }
