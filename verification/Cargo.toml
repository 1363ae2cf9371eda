[package]
name = "martian_robots"
version = "0.1.0"
edition = "2021"
publish = false

[dependencies]
rand = { version = "0.7", features = ["small_rng"] }
colored = "*"
structopt = "*"
