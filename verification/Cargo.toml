[package]
name = "ogg_looper"
version = "0.1.0"
edition = "2021"
publish = false

[dependencies]
anyhow = "*"
clap = { version = "*", features = ["derive"] }
lewton = "*"
lame-sys = "*"
libc = "*"
