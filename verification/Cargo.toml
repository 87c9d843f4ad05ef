[package]
name = "llama_mtp"
version = "0.1.0"
edition = "2021"
publish = false

[dependencies]
llama-cpp-sys-2 = "*"
thiserror = "2"
