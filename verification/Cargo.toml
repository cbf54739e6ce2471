[package]
name = "gneurshk"
version = "0.1.0"
edition = "2021"
publish = false

[dependencies]
inkwell = { version = "=0.5.0", features = ["llvm14-0-prefer-dynamic"] }
colored = "=3.1.1"
clearscreen = "=5.0.0"
indicatif = "=0.18.6"
notify = "=8.2.1"
