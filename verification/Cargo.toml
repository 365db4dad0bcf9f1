[package]
name = "goose"
version = "0.1.0"
edition = "2021"
publish = false

[dependencies]
fdt = "0.1"
arrayvec = { version = "0.7", default-features = false }
log = "0.4"
tock-registers = "0.8"
qemu-exit = "3"
