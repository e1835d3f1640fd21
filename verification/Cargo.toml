[package]
name = "vdg_oxidizer"
version = "0.1.0"
edition = "2021"
publish = false

[dependencies]
byteorder = "1"
linefeed = "0.6"
