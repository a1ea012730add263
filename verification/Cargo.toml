[package]
name = "ysos_proc"
version = "0.1.0"
edition = "2021"
publish = false

[dependencies]
chrono = "*"
crossbeam-queue = "*"
xmas-elf = "*"
