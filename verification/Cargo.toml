[package]
name = "mmtk_julia"
version = "0.1.0"
edition = "2021"
publish = false

[dependencies]
atomic = "*"
lazy_static = "1"
libc = "0.2"
log = "0.4"
memoffset = "*"
