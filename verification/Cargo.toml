[package]
name = "learn_pltl_fast"
version = "0.1.0"
edition = "2021"
publish = false

[dependencies]
itertools = "*"
rayon = "1"
serde = { version = "1", features = ["derive"] }
serde_with = "*"
ron = "*"
rand = "0.8"
