[package]
name = "histodu"
version = "0.1.0"
edition = "2021"
publish = false

[dependencies]
bytesize = "1"
clap = { version = "4", features = ["derive"] }
hdrhistogram = { version = "7", default-features = false, features = ["sync"] }
miniserde = "0.1"
rayon = "1"
scoped-tls = "1"
