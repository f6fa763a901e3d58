[package]
name = "charon"
version = "0.1.0"
edition = "2021"
publish = false

[dependencies]
itertools = "=0.15.0"
llvm-sys = { version = "=140.1.3", features = ["prefer-dynamic"] }
libc = "=0.2.191"
