[package]
name = "pal_forth"
version = "0.1.0"
edition = "2021"
publish = false

[dependencies]
hashbrown = "*"
no_std_io = { version = "*", features = ["std"] }
libc = "*"
