[package]
name = "rdsd2pcm"
version = "0.1.0"
edition = "2021"
publish = false

[dependencies]
thiserror = "*"
rand = "0.8"
log = "*"
id3 = "*"
dsf-meta = "*"
dff-meta = "*"
symphonia-core = "*"
