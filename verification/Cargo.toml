[package]
name = "r_calc"
version = "0.1.0"
edition = "2021"
publish = false

[dependencies]
hd44780-driver = "=0.4.0"
libm = "=0.2.16"
ufmt = "=0.2.0"
