[package]
name = "btmesh"
version = "0.1.0"
edition = "2021"
publish = false

[dependencies]
aes = "=0.7.5"
ccm = "=0.4.4"
cmac = "=0.6.0"
