[package]
name = "usb_async"
version = "0.1.0"
edition = "2021"
publish = false

[dependencies]
libc = "0.2"
libusb-sys = "0.2"
