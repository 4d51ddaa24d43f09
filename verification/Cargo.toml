[package]
name = "chess_lib"
version = "0.1.0"
edition = "2021"
publish = false

[dependencies]
rand = "0.8"
rand_chacha = "0.3"
clap = { version = "4", features = ["derive"] }
crossbeam = "0.8"
threadpool = "1.8"
tui = "0.19"
