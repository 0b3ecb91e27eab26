[package]
name = "arc_analyzer"
version = "0.1.0"
edition = "2021"
publish = false

[dependencies]
nalgebra = "*"
regex = "*"
colored = "*"
ctrlc = "*"
structopt = "*"
memory-stats = "*"
