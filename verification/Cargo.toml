[package]
name = "parch_kernel"
version = "0.1.0"
edition = "2021"
publish = false

[dependencies]
elf_rs = "*"
