[package]
name = "iobench"
version = "0.1.0"
edition = "2021"
publish = false

[dependencies]
glommio = "*"
iou = "0.3"
libc = "0.2"
memmap2 = "*"
page_size = "*"
