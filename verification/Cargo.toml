[package]
name = "tsudoku"
version = "0.1.0"
edition = "2021"
publish = false

[dependencies]
rand = "0.8"
queues = "1"
pancurses = "0.17"
clap = { version = "4", features = ["cargo"] }
once_cell = "1"
signal-hook = "0.3"
