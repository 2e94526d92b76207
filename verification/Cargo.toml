[package]
name = "maze_coevolution"
version = "0.1.0"
edition = "2021"
publish = false

[dependencies]
rand = "0.7"
libmath = "*"
chrono = "0.4"
lazy_static = "1"
envconfig = "*"
envconfig_derive = "*"
