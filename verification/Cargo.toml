[package]
name = "kernelcore"
version = "0.1.0"
edition = "2021"
publish = false

[dependencies]
heapless = "0.7"
xmas-elf = "0.7"
lazy_static = "1"
spin = "0.9"
riscv = "0.10"
