[package]
name = "gen_hash"
version = "0.1.0"
edition = "2021"
publish = false

[dependencies]
bumpalo = { version = "=3.20.3", features = ["collections"] }
inkwell = { version = "=0.1.1", features = ["llvm14-0"] }
# inkwell reaches LLVM through llvm-sys; it is named here only to have LLVM
# linked as a shared library, which inkwell has no feature for.
llvm-sys = { version = "=140.1.3", features = ["prefer-dynamic"] }
