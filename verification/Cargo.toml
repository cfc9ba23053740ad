[package]
name = "gl"
version = "0.1.0"
edition = "2021"
publish = false

[dependencies]
chrono = "*"
clap = { version = "*", features = ["derive"] }
colored = "*"
colorsys = "*"
gix = "*"
hyperpolyglot = "*"
rgb = "*"
tabular = "*"
termsize = "*"
textplots = "*"
