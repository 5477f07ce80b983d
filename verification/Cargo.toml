[package]
name = "mist"
version = "0.1.0"
edition = "2021"
publish = false

[dependencies]
ropey = "1.6"
unicode-segmentation = "1"
unicode-general-category = "*"
smallvec = "1"
encoding_rs = "0.8"
chardetng = "0.1"
anyhow = "1"
bitflags = "2"
directories = "*"
mlua = { version = "*", features = ["lua54", "vendored"] }
