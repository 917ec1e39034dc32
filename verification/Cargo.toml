[package]
name = "debree"
version = "0.1.0"
edition = "2021"
publish = false

[dependencies]
getrandom = "0.3"
itertools = "0.14"
num_enum = "0.7"
simdnoise = "3.1"
bytemuck = "1"
