[package]
name = "float_pigment"
version = "0.1.0"
edition = "2021"
publish = false

[dependencies]
byteorder = "=1.5.0"
cssparser = "=0.38.0"
cssparser-color = "=0.6.0"
hashbrown = "*"
