[package]
name = "genodist"
version = "0.1.0"
edition = "2021"
publish = false

[dependencies]
noodles = { version = "*", features = ["bcf", "csi", "vcf", "core"] }
sync_file = "*"
clap = "*"
rayon = "*"
