[package]
name = "erlay_sim"
version = "0.1.0"
edition = "2021"
publish = false

[dependencies]
actix = "0.7"
byteorder = "1"
minisketch-rs = "0.1"
rand = "0.6"
rand_xorshift = "0.1"
siphasher = "0.3"
structopt = "0.2"
