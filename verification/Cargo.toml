[package]
name = "matahatan"
version = "0.1.0"
edition = "2021"
publish = false

[dependencies]
maze_generator = "*"
rand = "*"
sha2 = "*"
