[package]
name = "raw_compressor"
version = "0.1.0"
edition = "2021"
publish = false

[dependencies]
clap = "4"
log = "0.4"
pretty_env_logger = "0.5"
rayon = "1"
walkdir = "2"
xz2 = "0.1"
