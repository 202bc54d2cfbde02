[package]
name = "pliron_tensor"
version = "0.1.0"
edition = "2021"
publish = false

[dependencies]
pliron = "0.20"
pliron-llvm = "0.20"
rustc-hash = "2"
thiserror = "2"
