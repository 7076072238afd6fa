[package]
name = "rish_softvm_core"
version = "0.1.0"
edition = "2021"

[dependencies]
iced-x86 = "*"
