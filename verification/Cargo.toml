[package]
name = "alpha_tak"
version = "0.1.0"
edition = "2021"
publish = false

[dependencies]
regex = "=1.13.1"
rand = "=0.8.8"
rand_distr = "=0.4.3"
clap = { version = "=3.2.25", features = ["derive"] }
takparse = "*"
