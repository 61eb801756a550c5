[package]
name = "tokcount"
version = "0.1.0"
edition = "2021"
publish = false

[dependencies]
tiktoken-rs = "*"
rayon = "*"
simple-tqdm = { version = "*", features = ["rayon"] }
num-format = { version = "*", features = ["with-system-locale"] }
