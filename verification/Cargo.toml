[package]
name = "rusty_invades"
version = "0.1.0"
edition = "2021"
publish = false

[dependencies]
rusty_time = "0.11"
rand = "0.8"
rusty_audio = "1"
crossterm = "0.19"
crossbeam = "0.8"
