[package]
name = "wallet"
version = "0.1.0"
edition = "2021"
publish = false

[dependencies]
elf = "0.7"
igvm_defs = "*"
log = "0.4"
sha2 = "0.10"
