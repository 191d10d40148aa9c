[package]
name = "loongarch_decompiler"
version = "0.1.0"
edition = "2021"
publish = false

[dependencies]
td_rlua = "*"
