[package]
name = "brk_computer"
version = "0.1.0"
edition = "2021"
publish = false

[dependencies]
brk_core = "=0.0.81"
brk_vec = "=0.0.81"
brk_exit = "=0.0.81"
color-eyre = "=0.6.5"
derive_deref = "=1.1.1"
either = "=1.19.0"
jiff = "=0.2.43"
log = "=0.4.35"
rayon = "=1.12.0"
