[package]
name = "tesc_core"
version = "0.1.0"
edition = "2021"
publish = false

[dependencies]
ariadne = "=0.5.1"
chumsky = "=0.13.0"
clap = { version = "=4.6.7", features = ["derive"] }
