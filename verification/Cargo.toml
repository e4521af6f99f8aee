[package]
name = "sp"
version = "1.0.4"
edition = "2021"
publish = false

[dependencies]
regex = "*"
rayon = "*"
owo-colors = "*"
clap = "*"
ctrlc = "*"
dirs = "*"
flexi_logger = "*"
log = "*"
