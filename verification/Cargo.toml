[package]
name = "emacs_i3"
version = "0.1.2"
edition = "2021"
publish = false

[dependencies]
anyhow = "1"
clap = "2"
i3ipc = "*"
