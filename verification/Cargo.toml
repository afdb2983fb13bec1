[package]
name = "ws_handshake"
version = "0.1.0"
edition = "2021"
publish = false

[dependencies]
sha1 = "0.6"
rustc-serialize = "0.3"
http-muncher = "*"
mio = "0.5"
