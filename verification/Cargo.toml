[package]
name = "tudelft-serial-upload"
version = "0.1.0"
edition = "2021"
publish = false

[dependencies]
color-eyre = "*"
crossterm = "*"
libftd2xx = "*"
serial2 = "*"
serial_enumerator = "*"
