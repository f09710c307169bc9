[package]
name = "autosim"
version = "0.1.0"
edition = "2021"
publish = false

[dependencies]
ariadne = "=0.5.1"
clap = { version = "=4.6.7", features = ["derive"] }
iced = { version = "=0.14.0", default-features = false, features = ["canvas", "tiny-skia", "x11", "tokio"] }
