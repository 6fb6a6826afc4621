[package]
name = "elgin"
version = "0.1.0"
edition = "2021"
publish = false

[dependencies]
lazy_static = "=1.5.1"
llvm-sys = { version = "=100.2.4", features = ["no-llvm-linking"] }
